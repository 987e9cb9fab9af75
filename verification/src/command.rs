//! The command decoder: from the bytes of one read to one command.
//!
//! A request is a run of tokens, each ended by a carriage return and a line
//! feed. The verb stands at position 2, its arguments at 4 and 6, and a time
//! to live for `set` at 10. Whatever does not fit decodes to
//! [`Command::Unrecognized`]; no input makes the decoder fail.

use crate::bytes::delimiter;
use crate::bytes::to_owned_bytes;
use vstd::prelude::*;

verus! {

/// A decoded request, with copies of the bytes it needs.
#[derive(Debug, PartialEq, Eq)]
pub enum Command {
    Ping,
    Echo(Vec<u8>),
    SetValue(Vec<u8>, Vec<u8>),
    SetWithTTL(Vec<u8>, Vec<u8>, u64),
    Get(Vec<u8>),
    Unrecognized,
}

/// A command as a mathematical value.
pub enum Request {
    Ping,
    Echo(Seq<u8>),
    SetValue(Seq<u8>, Seq<u8>),
    SetWithTTL(Seq<u8>, Seq<u8>, u64),
    Get(Seq<u8>),
    Unrecognized,
}

impl View for Command {
    type V = Request;

    open spec fn view(&self) -> Request {
        match *self {
            Command::Ping => Request::Ping,
            Command::Echo(t) => Request::Echo(t@),
            Command::SetValue(k, v) => Request::SetValue(k@, v@),
            Command::SetWithTTL(k, v, ms) => Request::SetWithTTL(k@, v@, ms),
            Command::Get(k) => Request::Get(k@),
            Command::Unrecognized => Request::Unrecognized,
        }
    }
}

/// The delimiter stands at `i`: a carriage return, then a line feed.
pub open spec fn break_at(s: Seq<u8>, i: int) -> bool {
    0 <= i && i + 1 < s.len() && s[i] == 13 && s[i + 1] == 10
}

/// The tokens of `s` from the token that begins at `start`, given that no
/// delimiter begins in `start..i`.
pub open spec fn split_from(s: Seq<u8>, start: int, i: int) -> Seq<Seq<u8>>
    decreases s.len() - i,
{
    if i >= s.len() {
        seq![s.subrange(start, s.len() as int)]
    } else if break_at(s, i) {
        seq![s.subrange(start, i)] + split_from(s, i + 2, i + 2)
    } else {
        split_from(s, start, i + 1)
    }
}

/// The tokens of `s`: the stretches between delimiters, the one before the
/// first and the one after the last included, empty ones too.
pub open spec fn tokens(s: Seq<u8>) -> Seq<Seq<u8>> {
    split_from(s, 0, 0)
}

/// The tokens written out again, with the delimiter between each two.
pub open spec fn joined(t: Seq<Seq<u8>>) -> Seq<u8>
    decreases t.len(),
{
    if t.len() == 0 {
        Seq::empty()
    } else if t.len() == 1 {
        t[0]
    } else {
        t[0] + delimiter() + joined(t.subrange(1, t.len() as int))
    }
}

proof fn lemma_split_joins(s: Seq<u8>, start: int, i: int)
    requires
        0 <= start <= i <= s.len(),
    ensures
        split_from(s, start, i).len() >= 1,
        joined(split_from(s, start, i)) == s.subrange(start, s.len() as int),
    decreases s.len() - i,
{
    if i >= s.len() {
    } else if break_at(s, i) {
        lemma_split_joins(s, i + 2, i + 2);
        let head = s.subrange(start, i);
        let rest = split_from(s, i + 2, i + 2);
        let all = seq![head] + rest;
        assert(all[0] == head);
        assert(all.subrange(1, all.len() as int) =~= rest);
        assert(joined(all) == head + delimiter() + joined(rest));
        assert(head + delimiter() + s.subrange(i + 2, s.len() as int) =~= s.subrange(
            start,
            s.len() as int,
        ));
    } else {
        lemma_split_joins(s, start, i + 1);
    }
}

proof fn lemma_stretch_is_plain(s: Seq<u8>, start: int, end: int, j: int)
    requires
        0 <= start <= end <= s.len(),
        forall|p: int| start <= p < end ==> !break_at(s, p),
    ensures
        !break_at(s.subrange(start, end), j),
{
    let tok = s.subrange(start, end);
    if break_at(tok, j) {
        assert(tok[j] == s[start + j]);
        assert(tok[j + 1] == s[start + j + 1]);
        assert(break_at(s, start + j));
    }
}

proof fn lemma_split_is_plain(s: Seq<u8>, start: int, i: int, k: int, j: int)
    requires
        0 <= start <= i <= s.len(),
        forall|p: int| start <= p < i ==> !break_at(s, p),
        0 <= k < split_from(s, start, i).len(),
    ensures
        !break_at(split_from(s, start, i)[k], j),
    decreases s.len() - i,
{
    if i >= s.len() {
        lemma_stretch_is_plain(s, start, s.len() as int, j);
    } else if break_at(s, i) {
        let head = s.subrange(start, i);
        let rest = split_from(s, i + 2, i + 2);
        if k == 0 {
            lemma_stretch_is_plain(s, start, i, j);
            assert((seq![head] + rest)[0] == head);
        } else {
            assert((seq![head] + rest)[k] == rest[k - 1]);
            lemma_split_is_plain(s, i + 2, i + 2, k - 1, j);
        }
    } else {
        lemma_split_is_plain(s, start, i + 1, k, j);
    }
}

proof fn lemma_split_without_break(s: Seq<u8>, start: int, i: int)
    requires
        0 <= start <= i <= s.len(),
        forall|p: int| i <= p ==> !break_at(s, p),
    ensures
        split_from(s, start, i) == seq![s.subrange(start, s.len() as int)],
    decreases s.len() - i,
{
    if i < s.len() {
        assert(!break_at(s, i));
        lemma_split_without_break(s, start, i + 1);
    }
}

/// What the tokens of an input are: there is at least one, no token holds
/// a delimiter, and the tokens joined by the delimiter are the input.
pub proof fn tokens_cut_at_every_delimiter(s: Seq<u8>)
    ensures
        tokens(s).len() >= 1,
        joined(tokens(s)) == s,
        forall|k: int, j: int|
            #![trigger break_at(tokens(s)[k], j)]
            0 <= k < tokens(s).len() ==> !break_at(tokens(s)[k], j),
{
    lemma_split_joins(s, 0, 0);
    assert(s.subrange(0, s.len() as int) =~= s);
    assert forall|k: int, j: int| 0 <= k < tokens(s).len() implies !#[trigger] break_at(
        tokens(s)[k],
        j,
    ) by {
        lemma_split_is_plain(s, 0, 0, k, j);
    }
}

/// An input without a delimiter is one token, so it spells no verb and
/// decodes to `Unrecognized`. The empty input is such an input.
pub proof fn undelimited_input_is_unrecognized(s: Seq<u8>)
    requires
        forall|p: int| !break_at(s, p),
    ensures
        tokens(s) == seq![s],
        decoded(s) == Request::Unrecognized,
{
    lemma_split_without_break(s, 0, 0);
    assert(s.subrange(0, s.len() as int) =~= s);
}

/// The empty input decodes to `Unrecognized`.
pub proof fn empty_input_is_unrecognized()
    ensures
        decoded(Seq::<u8>::empty()) == Request::Unrecognized,
{
    undelimited_input_is_unrecognized(Seq::<u8>::empty());
}

/// An input decodes to a command only where a token stands at position 2:
/// with fewer than three tokens it is `Unrecognized`.
pub proof fn input_without_verb_is_unrecognized(s: Seq<u8>)
    requires
        tokens(s).len() <= 2,
    ensures
        decoded(s) == Request::Unrecognized,
{
}

/// The byte strings that a list of buffers stands for.
pub open spec fn token_views(v: Seq<Vec<u8>>) -> Seq<Seq<u8>> {
    Seq::new(v.len(), |i: int| v[i]@)
}

/// Cuts the input at each delimiter.
pub fn split_tokens(input: &[u8]) -> (out: Vec<Vec<u8>>)
    ensures
        token_views(out@) == tokens(input@),
{
    let mut out: Vec<Vec<u8>> = Vec::new();
    let mut cur: Vec<u8> = Vec::new();
    let mut i: usize = 0;
    let ghost mut start: int = 0;
    while i < input.len()
        invariant
            0 <= start <= i <= input.len(),
            cur@ == input@.subrange(start, i as int),
            token_views(out@) + split_from(input@, start, i as int) == tokens(input@),
        decreases input.len() - i,
    {
        if input[i] == 13 && i + 1 < input.len() && input[i + 1] == 10 {
            proof {
                assert(break_at(input@, i as int));
                assert(token_views(out@.push(cur)) =~= token_views(out@) + seq![cur@]);
                assert((token_views(out@) + seq![cur@]) + split_from(input@, i + 2, i + 2)
                    =~= token_views(out@) + (seq![cur@] + split_from(input@, i + 2, i + 2)));
                start = i + 2;
            }
            out.push(cur);
            cur = Vec::new();
            i += 2;
            proof {
                assert(cur@ =~= input@.subrange(start, i as int));
            }
        } else {
            proof {
                assert(!break_at(input@, i as int));
            }
            cur.push(input[i]);
            i += 1;
            proof {
                assert(cur@ =~= input@.subrange(start, i as int));
            }
        }
    }
    proof {
        assert(token_views(out@.push(cur)) =~= token_views(out@) + seq![cur@]);
    }
    out.push(cur);
    out
}

/// A decimal digit in ASCII.
pub open spec fn is_digit(b: u8) -> bool {
    48 <= b <= 57
}

/// Every byte is a decimal digit.
pub open spec fn all_digits(s: Seq<u8>) -> bool {
    forall|i: int| 0 <= i < s.len() ==> is_digit(#[trigger] s[i])
}

/// The number that a run of decimal digits writes.
pub open spec fn digits_value(s: Seq<u8>) -> int
    decreases s.len(),
{
    if s.len() == 0 {
        0
    } else {
        digits_value(s.drop_last()) * 10 + (s.last() - 48)
    }
}

/// The token without a plus sign in front.
pub open spec fn unsigned_part(s: Seq<u8>) -> Seq<u8> {
    if s.len() > 0 && s[0] == 43 {
        s.subrange(1, s.len() as int)
    } else {
        s
    }
}

/// The time to live that a token writes, in milliseconds: one or more
/// decimal digits, a plus sign in front allowed, the number within 64 bits.
pub open spec fn ttl_of(s: Seq<u8>) -> Option<u64> {
    let d = unsigned_part(s);
    if d.len() > 0 && all_digits(d) && digits_value(d) <= u64::MAX {
        Some(digits_value(d) as u64)
    } else {
        None
    }
}

proof fn lemma_prefix_value(d: Seq<u8>, n: int)
    requires
        all_digits(d),
        0 <= n <= d.len(),
    ensures
        0 <= digits_value(d.subrange(0, n)) <= digits_value(d),
    decreases d.len() - n,
{
    if n == d.len() {
        assert(d.subrange(0, n) =~= d);
        lemma_value_nonnegative(d);
    } else {
        let shorter = d.drop_last();
        assert(shorter.subrange(0, n) =~= d.subrange(0, n));
        lemma_prefix_value(shorter, n);
        assert(is_digit(d.last()));
    }
}

proof fn lemma_value_nonnegative(d: Seq<u8>)
    requires
        all_digits(d),
    ensures
        0 <= digits_value(d),
    decreases d.len(),
{
    if d.len() > 0 {
        lemma_value_nonnegative(d.drop_last());
        assert(is_digit(d.last()));
    }
}

/// Reads a time to live off a token.
pub fn parse_ttl(t: &[u8]) -> (r: Option<u64>)
    ensures
        r == ttl_of(t@),
{
    let first: usize = if t.len() > 0 && t[0] == 43 {
        1
    } else {
        0
    };
    let ghost d = unsigned_part(t@);
    proof {
        assert(d =~= t@.subrange(first as int, t.len() as int));
    }
    if first == t.len() {
        return None;
    }
    let mut acc: u64 = 0;
    let mut i: usize = first;
    proof {
        assert(d.subrange(0, 0) =~= Seq::<u8>::empty());
    }
    while i < t.len()
        invariant
            first <= i <= t.len(),
            first < t.len(),
            d == t@.subrange(first as int, t.len() as int),
            d == unsigned_part(t@),
            all_digits(d.subrange(0, i - first)),
            acc == digits_value(d.subrange(0, i - first)),
        decreases t.len() - i,
    {
        let b: u8 = t[i];
        if b < 48 || b > 57 {
            proof {
                assert(0 <= i - first < d.len());
                assert(d[i - first] == t@[i as int]);
                assert(!is_digit(d[i - first]));
                assert(!all_digits(d));
            }
            return None;
        }
        let digit: u64 = (b - 48) as u64;
        let ghost longer = d.subrange(0, i - first + 1);
        proof {
            assert(longer.drop_last() =~= d.subrange(0, i - first));
            assert(longer.last() == b);
            assert(digits_value(longer) == digits_value(longer.drop_last()) * 10 + (longer.last()
                - 48));
            assert(digits_value(longer) == acc * 10 + digit);
            assert forall|j: int| 0 <= j < longer.len() implies is_digit(#[trigger] longer[j]) by {
                if j < i - first {
                    assert(longer[j] == d.subrange(0, i - first)[j]);
                }
            }
        }
        if acc > (u64::MAX - digit) / 10 {
            proof {
                assert(digits_value(longer) > u64::MAX);
                if all_digits(d) {
                    lemma_prefix_value(d, i - first + 1);
                }
            }
            return None;
        }
        acc = acc * 10 + digit;
        i += 1;
    }
    proof {
        assert(d.subrange(0, i - first) =~= d);
    }
    Some(acc)
}

/// The verb `ping`.
pub open spec fn verb_ping() -> Seq<u8> {
    seq![112u8, 105u8, 110u8, 103u8]
}

/// The verb `echo`.
pub open spec fn verb_echo() -> Seq<u8> {
    seq![101u8, 99u8, 104u8, 111u8]
}

/// The verb `set`.
pub open spec fn verb_set() -> Seq<u8> {
    seq![115u8, 101u8, 116u8]
}

/// The verb `get`.
pub open spec fn verb_get() -> Seq<u8> {
    seq![103u8, 101u8, 116u8]
}

/// The command that a run of tokens spells. The verb is matched byte for
/// byte; a verb that is missing or unknown, an argument that is missing and a
/// time to live that is no number all give `Unrecognized`.
pub open spec fn command_of(t: Seq<Seq<u8>>) -> Request {
    if t.len() <= 2 {
        Request::Unrecognized
    } else if t[2] == verb_ping() {
        Request::Ping
    } else if t[2] == verb_echo() {
        if t.len() > 4 {
            Request::Echo(t[4])
        } else {
            Request::Unrecognized
        }
    } else if t[2] == verb_set() {
        if t.len() <= 6 {
            Request::Unrecognized
        } else if t.len() <= 10 {
            Request::SetValue(t[4], t[6])
        } else {
            match ttl_of(t[10]) {
                Some(ms) => Request::SetWithTTL(t[4], t[6], ms),
                None => Request::Unrecognized,
            }
        }
    } else if t[2] == verb_get() {
        if t.len() > 4 {
            Request::Get(t[4])
        } else {
            Request::Unrecognized
        }
    } else {
        Request::Unrecognized
    }
}

/// The command that the bytes of one read spell.
pub open spec fn decoded(input: Seq<u8>) -> Request {
    command_of(tokens(input))
}

fn spells3(t: &[u8], a: u8, b: u8, c: u8) -> (r: bool)
    ensures
        r == (t@ == seq![a, b, c]),
{
    let r: bool = t.len() == 3 && t[0] == a && t[1] == b && t[2] == c;
    proof {
        if r {
            assert(t@ =~= seq![a, b, c]);
        } else if t.len() == 3 {
            assert(seq![a, b, c][0] == a && seq![a, b, c][1] == b && seq![a, b, c][2] == c);
        } else {
            assert(seq![a, b, c].len() == 3);
        }
    }
    r
}

fn spells4(t: &[u8], a: u8, b: u8, c: u8, d: u8) -> (r: bool)
    ensures
        r == (t@ == seq![a, b, c, d]),
{
    let r: bool = t.len() == 4 && t[0] == a && t[1] == b && t[2] == c && t[3] == d;
    proof {
        let w = seq![a, b, c, d];
        if r {
            assert(t@ =~= w);
        } else if t.len() == 4 {
            assert(w[0] == a && w[1] == b && w[2] == c && w[3] == d);
        } else {
            assert(w.len() == 4);
        }
    }
    r
}

/// Reads the command off a run of tokens.
pub fn command_from_tokens(t: &Vec<Vec<u8>>) -> (c: Command)
    ensures
        c@ == command_of(token_views(t@)),
{
    if t.len() <= 2 {
        return Command::Unrecognized;
    }
    let verb: &[u8] = t[2].as_slice();
    if spells4(verb, 112, 105, 110, 103) {
        Command::Ping
    } else if spells4(verb, 101, 99, 104, 111) {
        if t.len() > 4 {
            Command::Echo(to_owned_bytes(t[4].as_slice()))
        } else {
            Command::Unrecognized
        }
    } else if spells3(verb, 115, 101, 116) {
        if t.len() <= 6 {
            Command::Unrecognized
        } else if t.len() <= 10 {
            Command::SetValue(to_owned_bytes(t[4].as_slice()), to_owned_bytes(t[6].as_slice()))
        } else {
            match parse_ttl(t[10].as_slice()) {
                Some(ms) => Command::SetWithTTL(
                    to_owned_bytes(t[4].as_slice()),
                    to_owned_bytes(t[6].as_slice()),
                    ms,
                ),
                None => Command::Unrecognized,
            }
        }
    } else if spells3(verb, 103, 101, 116) {
        if t.len() > 4 {
            Command::Get(to_owned_bytes(t[4].as_slice()))
        } else {
            Command::Unrecognized
        }
    } else {
        Command::Unrecognized
    }
}

/// Decodes the bytes of one read. Every input decodes: what spells no
/// command is `Unrecognized`.
pub fn decode(input: &[u8]) -> (c: Command)
    ensures
        c@ == decoded(input@),
{
    let t: Vec<Vec<u8>> = split_tokens(input);
    command_from_tokens(&t)
}

} // verus!
