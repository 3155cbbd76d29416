//! The participant resolver: turns free-form, whitespace-delimited text
//! into the deduplicated identifiers of the mentioned users.
//!
//! A token resolves only when it is exactly a user mention: a `<@`
//! opener, an optional `!` marker, seventeen to nineteen decimal digits,
//! and a `>` closer.  Everything else is discarded without complaint.
//! The author never appears in the result, and duplicates collapse to
//! their first occurrence.

use vstd::prelude::*;
use crate::errors::TicketError;
use crate::text::{
    digits_val, is_digit_char, is_ws_char, lemma_digits_val_bound, lemma_pow10_19_fits, pow10,
    ws_char, digit_char,
};

verus! {

/// The whitespace-delimited tokens of `s`, given a token `cur` already
/// read: tokens close at each separator and at the end of the text, and
/// empty tokens are never emitted.
pub open spec fn split_acc(s: Seq<char>, cur: Seq<char>) -> Seq<Seq<char>>
    decreases s.len(),
{
    if s.len() == 0 {
        if cur.len() == 0 {
            Seq::<Seq<char>>::empty()
        } else {
            seq![cur]
        }
    } else if is_ws_char(s[0]) {
        (if cur.len() == 0 {
            Seq::<Seq<char>>::empty()
        } else {
            seq![cur]
        }) + split_acc(s.drop_first(), Seq::<char>::empty())
    } else {
        split_acc(s.drop_first(), cur.push(s[0]))
    }
}

/// The whitespace-delimited tokens of `s`.
pub open spec fn split_ws(s: Seq<char>) -> Seq<Seq<char>> {
    split_acc(s, Seq::<char>::empty())
}

/// The digit payload of a mention-shaped token: what stands between the
/// `<@` (plus the optional `!`) and the `>`.
pub open spec fn mention_digits(t: Seq<char>) -> Seq<char> {
    if t.len() >= 4 && t[2] == '!' {
        t.subrange(3, t.len() - 1)
    } else {
        t.subrange(2, t.len() - 1)
    }
}

/// Whether `t` is exactly a user mention.
pub open spec fn is_mention(t: Seq<char>) -> bool {
    &&& t.len() >= 4
    &&& t[0] == '<'
    &&& t[1] == '@'
    &&& t.last() == '>'
    &&& 17 <= mention_digits(t).len() <= 19
    &&& forall|i: int| 0 <= i < mention_digits(t).len() ==> is_digit_char(
        #[trigger] mention_digits(t)[i],
    )
}

/// The numeric identifier a mention denotes.
pub open spec fn mention_value(t: Seq<char>) -> int {
    digits_val(mention_digits(t))
}

/// The identifiers of the mention tokens, in token order, repeats kept.
pub open spec fn mention_ids(toks: Seq<Seq<char>>) -> Seq<u64>
    decreases toks.len(),
{
    if toks.len() == 0 {
        Seq::<u64>::empty()
    } else {
        let rest = mention_ids(toks.drop_last());
        if is_mention(toks.last()) {
            rest.push(mention_value(toks.last()) as u64)
        } else {
            rest
        }
    }
}

/// First occurrences only, with the author taken out.
pub open spec fn dedup_excluding(ids: Seq<u64>, author: u64) -> Seq<u64>
    decreases ids.len(),
{
    if ids.len() == 0 {
        Seq::<u64>::empty()
    } else {
        let rest = dedup_excluding(ids.drop_last(), author);
        if ids.last() == author || rest.contains(ids.last()) {
            rest
        } else {
            rest.push(ids.last())
        }
    }
}

/// What the resolver owes: the deduplicated identifiers of the mention
/// tokens of `s`, the author excluded.
pub open spec fn resolve_spec(s: Seq<char>, author: u64) -> Seq<u64> {
    dedup_excluding(mention_ids(split_ws(s)), author)
}

/// The views of a sequence of owned tokens.
pub open spec fn token_views(v: Seq<String>) -> Seq<Seq<char>> {
    v.map(|i: int, t: String| t@)
}

/// A longer digit prefix never denotes a smaller value.
proof fn lemma_digits_val_take_monotone(s: Seq<char>, k: int)
    requires
        0 <= k <= s.len(),
        forall|i: int| 0 <= i < s.len() ==> is_digit_char(#[trigger] s[i]),
    ensures
        digits_val(s.take(k)) <= digits_val(s),
    decreases s.len() - k,
{
    if k < s.len() {
        assert(s.take(k + 1).drop_last() =~= s.take(k));
        assert(forall|i: int| 0 <= i < s.take(k).len() ==> is_digit_char(#[trigger] s.take(k)[i]));
        lemma_digits_val_bound(s.take(k));
        assert(digits_val(s.take(k + 1)) == digits_val(s.take(k)) * 10 + crate::text::digit_val(
            s[k],
        ));
        lemma_digits_val_take_monotone(s, k + 1);
        assert(s.take(s.len() as int) =~= s);
    } else {
        assert(s.take(k) =~= s);
    }
}

/// `pow10` never decreases.
proof fn lemma_pow10_monotone(a: nat, b: nat)
    requires
        a <= b,
    ensures
        pow10(a) <= pow10(b),
    decreases b,
{
    if a < b {
        lemma_pow10_monotone(a, (b - 1) as nat);
        lemma_pow10_positive((b - 1) as nat);
    }
}

/// `pow10` is positive.
proof fn lemma_pow10_positive(n: nat)
    ensures
        pow10(n) >= 1,
    decreases n,
{
    if n > 0 {
        lemma_pow10_positive((n - 1) as nat);
    }
}

/// A mention's value always fits an unsigned 64-bit identifier: the
/// token shape caps the payload at nineteen digits.
pub proof fn lemma_mention_value_fits(t: Seq<char>)
    requires
        is_mention(t),
    ensures
        0 <= mention_value(t) <= u64::MAX,
{
    lemma_digits_val_bound(mention_digits(t));
    lemma_pow10_monotone(mention_digits(t).len(), 19);
    lemma_pow10_19_fits();
}

/// Splits `s` at whitespace into its non-empty tokens.
pub fn split_tokens(s: &str) -> (r: Vec<String>)
    ensures
        token_views(r@) == split_ws(s@),
{
    let n: usize = s.unicode_len();
    let mut out: Vec<String> = Vec::new();
    let mut start: usize = 0;
    let mut i: usize = 0;
    proof {
        assert(s@.skip(0) =~= s@);
        assert(s@.subrange(0, 0) =~= Seq::<char>::empty());
        assert(token_views(out@) + split_acc(s@, Seq::<char>::empty()) =~~= split_ws(s@));
    }
    while i < n
        invariant
            n == s@.len(),
            0 <= start <= i <= n,
            token_views(out@) + split_acc(s@.skip(i as int), s@.subrange(start as int, i as int))
                == split_ws(s@),
        decreases n - i,
    {
        let c: char = s.get_char(i);
        let ghost rest = s@.skip(i as int);
        let ghost cur = s@.subrange(start as int, i as int);
        proof {
            assert(rest[0] == s@[i as int]);
            assert(rest.drop_first() =~= s@.skip(i + 1 as int));
        }
        if ws_char(c) {
            if start < i {
                let tok: String = s.substring_char(start, i).to_owned();
                proof {
                    assert(split_acc(rest, cur) =~= seq![cur] + split_acc(
                        s@.skip(i + 1 as int),
                        Seq::<char>::empty(),
                    ));
                }
                out.push(tok);
                proof {
                    assert(token_views(out@) =~~= token_views(out@.drop_last()).push(cur));
                    assert(token_views(out@) + split_acc(
                        s@.skip(i + 1 as int),
                        Seq::<char>::empty(),
                    ) =~~= token_views(out@.drop_last()) + split_acc(rest, cur));
                }
            } else {
                proof {
                    assert(cur =~= Seq::<char>::empty());
                    assert(split_acc(rest, cur) =~= split_acc(
                        s@.skip(i + 1 as int),
                        Seq::<char>::empty(),
                    ));
                }
            }
            start = i + 1;
        } else {
            proof {
                assert(s@.subrange(start as int, i + 1 as int) =~= cur.push(s@[i as int]));
                assert(split_acc(rest, cur) == split_acc(
                    s@.skip(i + 1 as int),
                    s@.subrange(start as int, i + 1 as int),
                ));
            }
        }
        i = i + 1;
        proof {
            assert(s@.subrange(start as int, i as int) =~= if start == i {
                Seq::<char>::empty()
            } else {
                s@.subrange(start as int, i as int)
            });
        }
    }
    if start < n {
        let tok: String = s.substring_char(start, n).to_owned();
        proof {
            assert(s@.skip(n as int) =~= Seq::<char>::empty());
            assert(split_acc(s@.skip(n as int), s@.subrange(start as int, n as int)) =~= seq![
                s@.subrange(start as int, n as int),
            ]);
        }
        out.push(tok);
        proof {
            assert(token_views(out@) =~~= token_views(out@.drop_last()).push(
                s@.subrange(start as int, n as int),
            ));
            assert(token_views(out@) =~~= split_ws(s@));
        }
    } else {
        proof {
            assert(s@.skip(n as int) =~= Seq::<char>::empty());
            assert(s@.subrange(start as int, n as int) =~= Seq::<char>::empty());
            assert(split_acc(s@.skip(n as int), s@.subrange(start as int, n as int)) =~= Seq::<
                Seq<char>,
            >::empty());
            assert(token_views(out@) =~~= token_views(out@) + Seq::<Seq<char>>::empty());
        }
    }
    out
}

/// Decodes one token.  `Ok(Some(..))` carries a mention's identifier;
/// `Ok(None)` marks a token that is not a mention; `Err` reports a
/// mention whose payload overflows an unsigned 64-bit identifier, which
/// the token shape in fact rules out (see [`lemma_mention_value_fits`]).
#[verifier::rlimit(60)]
#[verifier::loop_isolation(false)]
pub fn parse_mention(tok: &str) -> (r: Result<Option<u64>, TicketError>)
    ensures
        match r {
            Ok(Some(v)) => is_mention(tok@) && v == mention_value(tok@),
            Ok(None) => !is_mention(tok@),
            Err(e) => {
                &&& e == TicketError::Parse
                &&& is_mention(tok@)
                &&& mention_value(tok@) > u64::MAX
            },
        },
{
    let n: usize = tok.unicode_len();
    if n < 4 {
        return Ok(None);
    }
    if tok.get_char(0) != '<' || tok.get_char(1) != '@' {
        return Ok(None);
    }
    if tok.get_char(n - 1) != '>' {
        proof {
            assert(tok@.last() != '>');
        }
        return Ok(None);
    }
    let start: usize = if tok.get_char(2) == '!' {
        3
    } else {
        2
    };
    let ghost ds = mention_digits(tok@);
    proof {
        assert(ds =~= tok@.subrange(start as int, n - 1 as int));
    }
    let count: usize = (n - 1) - start;
    if count < 17 || count > 19 {
        return Ok(None);
    }
    // First pass: the payload must be all digits.
    let mut i: usize = start;
    while i < n - 1
        invariant
            n == tok@.len(),
            2 <= start <= 3 < n,
            start <= i <= n - 1,
            ds == tok@.subrange(start as int, n - 1 as int),
            forall|j: int| 0 <= j < i - start ==> is_digit_char(#[trigger] ds[j]),
        decreases n - i,
    {
        let c: char = tok.get_char(i);
        if !digit_char(c) {
            proof {
                assert(ds[i - start] == tok@[i as int]);
                assert(0 <= i - start < mention_digits(tok@).len());
                assert(!is_digit_char(mention_digits(tok@)[i - start]));
                assert(!is_mention(tok@));
            }
            return Ok(None);
        }
        proof {
            assert(ds[i - start] == tok@[i as int]);
        }
        i = i + 1;
    }
    proof {
        assert(forall|j: int| 0 <= j < ds.len() ==> is_digit_char(#[trigger] ds[j]));
        assert(is_mention(tok@));
    }
    // Second pass: accumulate the value, defensively checking that it
    // fits.
    let mut acc: u64 = 0;
    let mut k: usize = start;
    proof {
        assert(ds.take(0) =~= Seq::<char>::empty());
    }
    while k < n - 1
        invariant
            n == tok@.len(),
            2 <= start <= 3 < n,
            start <= k <= n - 1,
            ds == tok@.subrange(start as int, n - 1 as int),
            is_mention(tok@),
            forall|j: int| 0 <= j < ds.len() ==> is_digit_char(#[trigger] ds[j]),
            acc == digits_val(ds.take(k - start)),
        decreases n - k,
    {
        let c: char = tok.get_char(k);
        proof {
            assert(ds[k - start] == tok@[k as int]);
            assert(is_digit_char(ds[k - start]));
        }
        let d: u64 = (c as u32 - 48) as u64;
        let ghost taken = ds.take(k - start);
        proof {
            assert(ds.take(k + 1 - start).drop_last() =~= taken);
            assert(digits_val(ds.take(k + 1 - start)) == digits_val(taken) * 10
                + crate::text::digit_val(ds[k - start]));
        }
        let shifted: u64 = match acc.checked_mul(10) {
            Some(x) => x,
            None => {
                proof {
                    lemma_digits_val_bound(taken);
                    lemma_digits_val_take_monotone(ds, k + 1 - start);
                    assert(ds.take(ds.len() as int) =~= ds);
                }
                return Err(TicketError::Parse);
            },
        };
        acc = match shifted.checked_add(d) {
            Some(x) => x,
            None => {
                proof {
                    lemma_digits_val_bound(taken);
                    lemma_digits_val_take_monotone(ds, k + 1 - start);
                    assert(ds.take(ds.len() as int) =~= ds);
                }
                return Err(TicketError::Parse);
            },
        };
        k = k + 1;
    }
    proof {
        assert(ds.take(ds.len() as int) =~= ds);
    }
    Ok(Some(acc))
}

/// Whether `v` holds `x`.
fn contains_u64(v: &Vec<u64>, x: u64) -> (r: bool)
    ensures
        r == v@.contains(x),
{
    let mut i: usize = 0;
    while i < v.len()
        invariant
            i <= v@.len(),
            forall|j: int| 0 <= j < i ==> v@[j] != x,
        decreases v@.len() - i,
    {
        if v[i] == x {
            return true;
        }
        i = i + 1;
    }
    false
}

/// Resolves participant text into the deduplicated identifiers of the
/// mentioned users, the author excluded.  Tokens that are not mentions
/// are discarded silently.  The `Err` arm is owed to payloads that
/// overflow an unsigned 64-bit identifier, which the mention shape rules
/// out, so the resolver in fact always succeeds.
pub fn resolve_related(related: &str, author: u64) -> (r: Result<Vec<u64>, TicketError>)
    ensures
        r matches Ok(ids) && ids@ == resolve_spec(related@, author),
{
    let tokens: Vec<String> = split_tokens(related);
    let ghost toks = token_views(tokens@);
    let mut ids: Vec<u64> = Vec::new();
    let mut j: usize = 0;
    proof {
        assert(toks.take(0) =~~= Seq::<Seq<char>>::empty());
        assert(mention_ids(toks.take(0)) =~= Seq::<u64>::empty());
    }
    while j < tokens.len()
        invariant
            toks == token_views(tokens@),
            j <= toks.len(),
            ids@ == dedup_excluding(mention_ids(toks.take(j as int)), author),
        decreases toks.len() - j,
    {
        let ghost prefix = mention_ids(toks.take(j as int));
        proof {
            assert(toks.take(j + 1 as int).drop_last() =~~= toks.take(j as int));
            assert(toks.take(j + 1 as int).last() == toks[j as int]);
            assert(tokens@[j as int]@ == toks[j as int]);
        }
        match parse_mention(tokens[j].as_str()) {
            Ok(Some(v)) => {
                proof {
                    lemma_mention_value_fits(toks[j as int]);
                    assert(mention_ids(toks.take(j + 1 as int)) =~= prefix.push(v));
                    assert(prefix.push(v).drop_last() =~= prefix);
                }
                if v != author && !contains_u64(&ids, v) {
                    ids.push(v);
                }
            },
            Ok(None) => {
                proof {
                    assert(mention_ids(toks.take(j + 1 as int)) =~= prefix);
                }
            },
            Err(e) => {
                proof {
                    lemma_mention_value_fits(toks[j as int]);
                }
                return Err(e);
            },
        }
        j = j + 1;
    }
    proof {
        assert(toks.take(toks.len() as int) =~~= toks);
    }
    Ok(ids)
}

} // verus!
