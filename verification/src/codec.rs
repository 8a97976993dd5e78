//! The persisted form of the moderation documents: a plain-text encoding
//! of each list, written field by field with length-prefixed text and
//! decimal numerals, together with its parser. Parsing a document the
//! serializer wrote yields the same entries in the same order; the
//! round-trip laws at the end state that for every list.

use vstd::prelude::*;
use vstd::string::*;
use vstd::arithmetic::div_mod::lemma_fundamental_div_mod;
use crate::moderation::{BannedIpEntry, BannedIpList, BannedPlayerEntry, BannedPlayerList, Op, OperatorConfig};
use crate::net::IpAddress;
use crate::machine::ConnectionError;

verus! {

/// The value of a decimal digit character, if it is one.
pub open spec fn char_digit(c: char) -> Option<int> {
    if c == '0' {
        Some(0int)
    } else if c == '1' {
        Some(1int)
    } else if c == '2' {
        Some(2int)
    } else if c == '3' {
        Some(3int)
    } else if c == '4' {
        Some(4int)
    } else if c == '5' {
        Some(5int)
    } else if c == '6' {
        Some(6int)
    } else if c == '7' {
        Some(7int)
    } else if c == '8' {
        Some(8int)
    } else if c == '9' {
        Some(9int)
    } else {
        None
    }
}

/// Whether the character is a decimal digit.
pub open spec fn is_digit(c: char) -> bool {
    char_digit(c) is Some
}

/// The digit character for a value below ten.
pub open spec fn digit_of(d: int) -> char {
    if d == 0 {
        '0'
    } else if d == 1 {
        '1'
    } else if d == 2 {
        '2'
    } else if d == 3 {
        '3'
    } else if d == 4 {
        '4'
    } else if d == 5 {
        '5'
    } else if d == 6 {
        '6'
    } else if d == 7 {
        '7'
    } else if d == 8 {
        '8'
    } else {
        '9'
    }
}

/// The decimal numeral of `n`, most significant digit first.
pub open spec fn dec_digits(n: nat) -> Seq<char>
    decreases n,
{
    if n < 10 {
        seq![digit_of(n as int)]
    } else {
        dec_digits(n / 10).push(digit_of((n % 10) as int))
    }
}

/// The value of a digit string, most significant digit first.
pub open spec fn digits_val(s: Seq<char>) -> nat
    decreases s.len(),
{
    if s.len() == 0 {
        0
    } else {
        (digits_val(s.drop_last()) * 10 + (match char_digit(s.last()) {
            Some(d) => d,
            None => 0,
        })) as nat
    }
}

/// How many leading characters of `s` are digits.
pub open spec fn digits_prefix_len(s: Seq<char>) -> nat
    decreases s.len(),
{
    if s.len() > 0 && is_digit(s[0]) {
        1 + digits_prefix_len(s.drop_first())
    } else {
        0
    }
}

/// The numeral read off the front of `s`: its value and what follows it;
/// nothing when `s` does not begin with a digit.
pub open spec fn parse_nat(s: Seq<char>) -> Option<(nat, Seq<char>)> {
    let k = digits_prefix_len(s);
    if k == 0 {
        None
    } else {
        Some((digits_val(s.take(k as int)), s.skip(k as int)))
    }
}

/// Law: a numeral consists of digits.
pub proof fn lemma_dec_digits_are_digits(n: nat)
    ensures
        dec_digits(n).len() >= 1,
        forall|i: int| 0 <= i < dec_digits(n).len() ==> is_digit(#[trigger] dec_digits(n)[i]),
    decreases n,
{
    if n < 10 {
    } else {
        lemma_dec_digits_are_digits(n / 10);
        assert forall|i: int| 0 <= i < dec_digits(n).len() implies is_digit(
            #[trigger] dec_digits(n)[i],
        ) by {
            if i < dec_digits(n / 10).len() {
                assert(dec_digits(n)[i] == dec_digits(n / 10)[i]);
            } else {
                assert(dec_digits(n)[i] == digit_of((n % 10) as int));
            }
        }
    }
}

/// Law: the digit of a value below ten reads back as that value.
pub proof fn lemma_digit_roundtrip(d: int)
    requires
        0 <= d < 10,
    ensures
        char_digit(digit_of(d)) == Some(d),
{
}

/// Law: reading a numeral back gives the number it was written from.
pub proof fn lemma_digits_val_roundtrip(n: nat)
    ensures
        digits_val(dec_digits(n)) == n,
    decreases n,
{
    if n < 10 {
        assert(dec_digits(n) == seq![digit_of(n as int)]);
        assert(dec_digits(n).drop_last() =~= Seq::<char>::empty());
        assert(digits_val(Seq::<char>::empty()) == 0);
        assert(dec_digits(n).last() == digit_of(n as int));
        lemma_digit_roundtrip(n as int);
        assert(digits_val(dec_digits(n)) == (digits_val(dec_digits(n).drop_last()) * 10 + n) as nat);
    } else {
        lemma_digits_val_roundtrip(n / 10);
        assert(dec_digits(n).drop_last() =~= dec_digits(n / 10));
        assert(dec_digits(n).last() == digit_of((n % 10) as int));
        lemma_digit_roundtrip((n % 10) as int);
        assert(digits_val(dec_digits(n)) == (digits_val(dec_digits(n).drop_last()) * 10 + (n % 10)) as nat);
        assert(digits_val(dec_digits(n).drop_last()) == n / 10);
        lemma_fundamental_div_mod(n as int, 10);
    }
}

/// Law: the digit prefix of an all-digit run followed by a non-digit is
/// exactly that run.
pub proof fn lemma_digits_prefix_of(a: Seq<char>, rest: Seq<char>)
    requires
        forall|i: int| 0 <= i < a.len() ==> is_digit(#[trigger] a[i]),
        rest.len() == 0 || !is_digit(rest[0]),
    ensures
        digits_prefix_len(a + rest) == a.len(),
    decreases a.len(),
{
    if a.len() == 0 {
        assert(a + rest =~= rest);
    } else {
        assert((a + rest)[0] == a[0]);
        assert((a + rest).drop_first() =~= a.drop_first() + rest);
        assert forall|i: int| 0 <= i < a.drop_first().len() implies is_digit(
            #[trigger] a.drop_first()[i],
        ) by {
            assert(a.drop_first()[i] == a[i + 1]);
        }
        lemma_digits_prefix_of(a.drop_first(), rest);
    }
}

/// Law: a written numeral parses back to its number, leaving exactly what
/// followed it.
pub proof fn lemma_parse_nat_roundtrip(n: nat, rest: Seq<char>)
    requires
        rest.len() == 0 || !is_digit(rest[0]),
    ensures
        parse_nat(dec_digits(n) + rest) == Some((n, rest)),
{
    lemma_dec_digits_are_digits(n);
    lemma_digits_prefix_of(dec_digits(n), rest);
    let s = dec_digits(n) + rest;
    let k = digits_prefix_len(s);
    assert(k == dec_digits(n).len());
    assert(s.take(k as int) =~= dec_digits(n));
    assert(s.skip(k as int) =~= rest);
    lemma_digits_val_roundtrip(n);
}

/// Law: a digit string's value only grows as digits are appended.
pub proof fn lemma_digits_val_prefix_monotone(s: Seq<char>, m: int)
    requires
        0 <= m <= s.len(),
    ensures
        digits_val(s.take(m)) <= digits_val(s),
    decreases s.len() - m,
{
    if m < s.len() {
        assert(s.take(m + 1).drop_last() =~= s.take(m));
        lemma_digits_val_prefix_monotone(s, m + 1);
    } else {
        assert(s.take(m) =~= s);
    }
}

// ---------------------------------------------------------------------------
// Field encodings
// ---------------------------------------------------------------------------

// ---------------------------------------------------------------------------
// Entries and lists
// ---------------------------------------------------------------------------

/// The mathematical content of a banned-IP entry.
pub ghost struct IpEntryView {
    /// The banned address.
    pub ip: IpAddress,
    /// The recorded reason, if any.
    pub reason: Option<Seq<char>>,
    /// The expiry moment, if any.
    pub expires: Option<i64>,
    /// Who placed the ban.
    pub source: Seq<char>,
}

/// The mathematical content of a banned-player entry.
pub ghost struct PlayerEntryView {
    /// The banned player's unique id.
    pub uuid: u128,
    /// The banned player's display name.
    pub name: Seq<char>,
    /// The recorded reason, if any.
    pub reason: Option<Seq<char>>,
    /// The expiry moment, if any.
    pub expires: Option<i64>,
    /// Who placed the ban.
    pub source: Seq<char>,
}

/// The mathematical content of an operator grant.
pub ghost struct OpView {
    /// The operator's unique id.
    pub uuid: u128,
    /// The operator's display name.
    pub name: Seq<char>,
    /// The privilege level granted.
    pub permission_level: u8,
    /// Whether this operator may join past the player limit.
    pub bypasses_player_limit: bool,
}

/// Optional text as an optional character sequence.
pub open spec fn opt_text_view(o: Option<String>) -> Option<Seq<char>> {
    match o {
        None => None,
        Some(s) => Some(s@),
    }
}

/// The mathematical content of a banned-IP entry.
pub open spec fn ip_entry_view(e: BannedIpEntry) -> IpEntryView {
    IpEntryView {
        ip: e.ip,
        reason: opt_text_view(e.reason),
        expires: e.expires,
        source: e.source@,
    }
}

/// The mathematical content of a banned-player entry.
pub open spec fn player_entry_view(e: BannedPlayerEntry) -> PlayerEntryView {
    PlayerEntryView {
        uuid: e.uuid,
        name: e.name@,
        reason: opt_text_view(e.reason),
        expires: e.expires,
        source: e.source@,
    }
}

/// The mathematical content of an operator grant.
pub open spec fn op_view(e: Op) -> OpView {
    OpView {
        uuid: e.uuid,
        name: e.name@,
        permission_level: e.permission_level,
        bypasses_player_limit: e.bypasses_player_limit,
    }
}

// ---------------------------------------------------------------------------
// Writing documents
// ---------------------------------------------------------------------------

/// The one-character string for a digit value.
fn digit_str(d: u128) -> (r: &'static str)
    requires
        d < 10,
    ensures
        r@ == seq![digit_of(d as int)],
{
    proof {
        reveal_strlit("0");
        reveal_strlit("1");
        reveal_strlit("2");
        reveal_strlit("3");
        reveal_strlit("4");
        reveal_strlit("5");
        reveal_strlit("6");
        reveal_strlit("7");
        reveal_strlit("8");
        reveal_strlit("9");
    }
    let r = if d == 0 {
        "0"
    } else if d == 1 {
        "1"
    } else if d == 2 {
        "2"
    } else if d == 3 {
        "3"
    } else if d == 4 {
        "4"
    } else if d == 5 {
        "5"
    } else if d == 6 {
        "6"
    } else if d == 7 {
        "7"
    } else if d == 8 {
        "8"
    } else {
        "9"
    };
    proof {
        assert(r@ =~= seq![digit_of(d as int)]);
    }
    r
}

/// Appends the decimal numeral of `n`.
fn push_digits(out: &mut String, n: u128)
    ensures
        final(out)@ == old(out)@ + dec_digits(n as nat),
    decreases n,
{
    if n < 10 {
        out.append(digit_str(n));
        proof {
            assert(old(out)@ + seq![digit_of(n as int)] =~= old(out)@ + dec_digits(n as nat));
        }
    } else {
        push_digits(out, n / 10);
        out.append(digit_str(n % 10));
        proof {
            assert((n / 10) as nat == (n as nat) / 10);
            assert((n % 10) as nat == (n as nat) % 10);
            assert((old(out)@ + dec_digits((n as nat) / 10)) + seq![
                digit_of(((n as nat) % 10) as int),
            ] =~= old(out)@ + dec_digits(n as nat));
        }
    }
}

// ---------------------------------------------------------------------------
// Reading documents
// ---------------------------------------------------------------------------

/// Law: the digit prefix is part of the string.
proof fn lemma_dpl_bounds(s: Seq<char>)
    ensures
        digits_prefix_len(s) <= s.len(),
    decreases s.len(),
{
    if s.len() > 0 && is_digit(s[0]) {
        lemma_dpl_bounds(s.drop_first());
    }
}

/// Law: a digit run extends the digit prefix at least that far.
proof fn lemma_dpl_lower(a: Seq<char>, rest: Seq<char>)
    requires
        forall|i: int| 0 <= i < a.len() ==> is_digit(#[trigger] a[i]),
    ensures
        digits_prefix_len(a + rest) >= a.len(),
    decreases a.len(),
{
    if a.len() == 0 {
    } else {
        assert((a + rest)[0] == a[0]);
        assert((a + rest).drop_first() =~= a.drop_first() + rest);
        assert forall|i: int| 0 <= i < a.drop_first().len() implies is_digit(
            #[trigger] a.drop_first()[i],
        ) by {
            assert(a.drop_first()[i] == a[i + 1]);
        }
        lemma_dpl_lower(a.drop_first(), rest);
    }
}

/// The value of a digit character, if it is one.
fn digit_val_exec(c: char) -> (r: Option<u8>)
    ensures
        (match r {
            Some(d) => char_digit(c) == Some(d as int),
            None => char_digit(c) is None,
        }),
{
    if c == '0' {
        Some(0)
    } else if c == '1' {
        Some(1)
    } else if c == '2' {
        Some(2)
    } else if c == '3' {
        Some(3)
    } else if c == '4' {
        Some(4)
    } else if c == '5' {
        Some(5)
    } else if c == '6' {
        Some(6)
    } else if c == '7' {
        Some(7)
    } else if c == '8' {
        Some(8)
    } else if c == '9' {
        Some(9)
    } else {
        None
    }
}

/// Reads the numeral starting at `i`, if one starts there and its value
/// fits the machine word.
fn scan_nat_at(s: &str, len: usize, i: usize) -> (r: Option<(u128, usize)>)
    requires
        len == s@.len(),
        i <= len,
    ensures
        (match r {
            Some(p) => i < p.1 <= len && parse_nat(s@.skip(i as int)) == Some(
                (p.0 as nat, s@.skip(p.1 as int)),
            ),
            None => (match parse_nat(s@.skip(i as int)) {
                None => true,
                Some(q) => q.0 > u128::MAX as nat,
            }),
        }),
{
    let ghost tail = s@.skip(i as int);
    let mut j: usize = i;
    let mut acc: u128 = 0;
    while j < len
        invariant
            len == s@.len(),
            tail == s@.skip(i as int),
            i <= j <= len,
            acc as nat == digits_val(tail.take(j - i)),
            forall|k: int| 0 <= k < j - i ==> is_digit(#[trigger] tail[k]),
        ensures
            len == s@.len(),
            tail == s@.skip(i as int),
            i <= j <= len,
            acc as nat == digits_val(tail.take(j - i)),
            forall|k: int| 0 <= k < j - i ==> is_digit(#[trigger] tail[k]),
            j == len || !is_digit(tail[j - i]),
        decreases len - j,
    {
        let c = s.get_char(j);
        proof {
            assert(tail[j - i] == s@[j as int]);
        }
        match digit_val_exec(c) {
            None => {
                break ;
            },
            Some(d) => {
                let ghost m = j - i;
                proof {
                    assert(tail.take(m + 1).drop_last() =~= tail.take(m as int));
                    assert(tail.take(m + 1).last() == tail[m as int]);
                    assert(digits_val(tail.take(m + 1)) == digits_val(tail.take(m as int)) * 10 + (
                    d as int));
                }
                let step = match acc.checked_mul(10) {
                    None => None,
                    Some(t) => t.checked_add(d as u128),
                };
                match step {
                    None => {
                        proof {
                            assert(digits_val(tail.take(m + 1)) > u128::MAX as nat);
                            let p = digits_prefix_len(tail);
                            lemma_dpl_bounds(tail);
                            assert(tail =~= tail.take(m + 1) + tail.skip(m + 1));
                            assert forall|k: int| 0 <= k < tail.take(m + 1).len() implies is_digit(
                                #[trigger] tail.take(m + 1)[k],
                            ) by {
                                assert(tail.take(m + 1)[k] == tail[k]);
                            }
                            lemma_dpl_lower(tail.take(m + 1), tail.skip(m + 1));
                            assert(p >= m + 1);
                            lemma_digits_val_prefix_monotone(tail.take(p as int), m + 1);
                            assert(tail.take(p as int).take(m + 1) =~= tail.take(m + 1));
                            assert(digits_val(tail.take(p as int)) >= digits_val(
                                tail.take(m + 1),
                            ));
                        }
                        return None;
                    },
                    Some(v) => {
                        acc = v;
                    },
                }
                proof {
                    assert(acc as nat == digits_val(tail.take(j + 1 - i)));
                }
                j = j + 1;
            },
        }
    }
    proof {
        assert(tail.take(j - i) =~= tail.take(j - i) + Seq::<char>::empty());
        if j < len {
            assert(tail =~= tail.take(j - i) + tail.skip(j - i));
            assert(tail.skip(j - i)[0] == tail[j - i]);
            lemma_digits_prefix_of(tail.take(j - i), tail.skip(j - i));
        } else {
            assert(tail =~= tail.take(j - i) + tail.skip(j - i));
            assert(tail.skip(j - i).len() == 0);
            lemma_digits_prefix_of(tail.take(j - i), tail.skip(j - i));
        }
        assert(digits_prefix_len(tail) == j - i);
    }
    if j == i {
        return None;
    }
    proof {
        assert(tail.skip(j - i) =~= s@.skip(j as int));
    }
    Some((acc, j))
}

// ---------------------------------------------------------------------------
// The document grammar: a JSON array of entry objects
// ---------------------------------------------------------------------------

/// Whitespace that may stand between tokens of a document.
pub open spec fn is_ws(c: char) -> bool {
    c == ' ' || c == '\n' || c == '\r' || c == '\t'
}

/// The input with its leading whitespace dropped.
pub open spec fn skip_ws(s: Seq<char>) -> Seq<char>
    decreases s.len(),
{
    if s.len() > 0 && is_ws(s[0]) {
        skip_ws(s.drop_first())
    } else {
        s
    }
}

/// Expects the exact token `lit` at the front.
pub open spec fn expect_lit(s: Seq<char>, lit: Seq<char>) -> Option<Seq<char>> {
    if s.len() >= lit.len() && s.take(lit.len() as int) == lit {
        Some(s.skip(lit.len() as int))
    } else {
        None
    }
}

/// Law: a written token reads back, leaving what followed it.
pub proof fn lemma_expect_lit(lit: Seq<char>, rest: Seq<char>)
    ensures
        expect_lit(lit + rest, lit) == Some(rest),
{
    assert((lit + rest).take(lit.len() as int) =~= lit);
    assert((lit + rest).skip(lit.len() as int) =~= rest);
}

/// How one character is written inside a quoted string: quotes and
/// backslashes take an escape, everything else stands as itself.
pub open spec fn esc_char(c: char) -> Seq<char> {
    if c == '"' {
        seq!['\\', '"']
    } else if c == '\\' {
        seq!['\\', '\\']
    } else {
        seq![c]
    }
}

/// A text as written inside quotes.
pub open spec fn esc(t: Seq<char>) -> Seq<char>
    decreases t.len(),
{
    if t.len() == 0 {
        Seq::empty()
    } else {
        esc(t.drop_last()) + esc_char(t.last())
    }
}

/// Law: the written form of a text is its first character's form followed
/// by the rest's.
pub proof fn lemma_esc_front(t: Seq<char>)
    requires
        t.len() > 0,
    ensures
        esc(t) == esc_char(t[0]) + esc(t.drop_first()),
    decreases t.len(),
{
    if t.len() == 1 {
        assert(t.drop_last() =~= Seq::<char>::empty());
        assert(t.drop_first() =~= Seq::<char>::empty());
        assert(esc(t) =~= esc_char(t[0]) + esc(t.drop_first()));
    } else {
        lemma_esc_front(t.drop_last());
        assert(t.drop_last()[0] == t[0]);
        assert(t.drop_last().drop_first() =~= t.drop_first().drop_last());
        assert(t.drop_first().last() == t.last());
        assert((esc_char(t[0]) + esc(t.drop_first().drop_last())) + esc_char(t.last())
            =~= esc_char(t[0]) + (esc(t.drop_first().drop_last()) + esc_char(t.last())));
    }
}

/// Law: a text free of quotes and backslashes is written as itself.
pub proof fn lemma_esc_clean(t: Seq<char>)
    requires
        forall|i: int| 0 <= i < t.len() ==> #[trigger] t[i] != '"' && t[i] != '\\',
    ensures
        esc(t) == t,
    decreases t.len(),
{
    if t.len() == 0 {
        assert(esc(t) =~= t);
    } else {
        lemma_esc_clean(t.drop_last());
        assert(t.last() == t[t.len() - 1]);
        assert(esc(t) =~= t.drop_last() + seq![t.last()]);
        assert(t.drop_last() + seq![t.last()] =~= t);
    }
}

/// A quoted string.
pub open spec fn enc_jstr(t: Seq<char>) -> Seq<char> {
    seq!['"'] + esc(t) + seq!['"']
}

/// Reads the body of a quoted string up to its closing quote.
pub open spec fn jstr_body(s: Seq<char>) -> Option<(Seq<char>, Seq<char>)>
    decreases s.len(),
{
    if s.len() == 0 {
        None
    } else if s[0] == '"' {
        Some((Seq::empty(), s.drop_first()))
    } else if s[0] == '\\' {
        if s.len() >= 2 && (s[1] == '"' || s[1] == '\\') {
            match jstr_body(s.skip(2)) {
                Some((t, r)) => Some((seq![s[1]] + t, r)),
                None => None,
            }
        } else {
            None
        }
    } else {
        match jstr_body(s.drop_first()) {
            Some((t, r)) => Some((seq![s[0]] + t, r)),
            None => None,
        }
    }
}

/// Reads one quoted string off the front.
pub open spec fn parse_jstr(s: Seq<char>) -> Option<(Seq<char>, Seq<char>)> {
    if s.len() > 0 && s[0] == '"' {
        jstr_body(s.drop_first())
    } else {
        None
    }
}

/// Law: the body of a written string reads back exactly, leaving what
/// followed the closing quote.
pub proof fn lemma_jstr_body_roundtrip(t: Seq<char>, rest: Seq<char>)
    ensures
        jstr_body(esc(t) + seq!['"'] + rest) == Some((t, rest)),
    decreases t.len(),
{
    if t.len() == 0 {
        assert(esc(t) + seq!['"'] + rest =~= seq!['"'] + rest);
        assert((seq!['"'] + rest)[0] == '"');
        assert((seq!['"'] + rest).drop_first() =~= rest);
    } else {
        lemma_esc_front(t);
        lemma_jstr_body_roundtrip(t.drop_first(), rest);
        let s = esc(t) + seq!['"'] + rest;
        let inner = esc(t.drop_first()) + seq!['"'] + rest;
        if t[0] == '"' || t[0] == '\\' {
            assert(s =~= seq!['\\', t[0]] + inner);
            assert(s[0] == '\\');
            assert(s[1] == t[0]);
            assert(s.skip(2) =~= inner);
            assert(seq![t[0]] + t.drop_first() =~= t);
        } else {
            assert(s =~= seq![t[0]] + inner);
            assert(s[0] == t[0]);
            assert(s.drop_first() =~= inner);
            assert(seq![t[0]] + t.drop_first() =~= t);
        }
    }
}

/// Law: a written quoted string reads back exactly.
pub proof fn lemma_parse_jstr_roundtrip(t: Seq<char>, rest: Seq<char>)
    ensures
        parse_jstr(enc_jstr(t) + rest) == Some((t, rest)),
{
    let s = enc_jstr(t) + rest;
    assert(s[0] == '"');
    assert(s.drop_first() =~= esc(t) + seq!['"'] + rest);
    lemma_jstr_body_roundtrip(t, rest);
}

// ---------------------------------------------------------------------------
// Hex numerals, ids and addresses
// ---------------------------------------------------------------------------

/// The value of a hex digit character, if it is one.
pub open spec fn char_hex(c: char) -> Option<int> {
    if c == 'a' || c == 'A' {
        Some(10int)
    } else if c == 'b' || c == 'B' {
        Some(11int)
    } else if c == 'c' || c == 'C' {
        Some(12int)
    } else if c == 'd' || c == 'D' {
        Some(13int)
    } else if c == 'e' || c == 'E' {
        Some(14int)
    } else if c == 'f' || c == 'F' {
        Some(15int)
    } else {
        char_digit(c)
    }
}

/// The lowercase hex digit character for a value below sixteen.
pub open spec fn hex_char_of(d: int) -> char {
    if d < 10 {
        digit_of(d)
    } else if d == 10 {
        'a'
    } else if d == 11 {
        'b'
    } else if d == 12 {
        'c'
    } else if d == 13 {
        'd'
    } else if d == 14 {
        'e'
    } else {
        'f'
    }
}

/// Law: a hex digit reads back as its value.
pub proof fn lemma_hex_digit_roundtrip(d: int)
    requires
        0 <= d < 16,
    ensures
        char_hex(hex_char_of(d)) == Some(d),
{
}

/// The hex numeral of `n` in exactly `w` digits, most significant first.
pub open spec fn hex_fixed(n: nat, w: nat) -> Seq<char>
    decreases w,
{
    if w == 0 {
        Seq::empty()
    } else {
        hex_fixed(n / 16, (w - 1) as nat).push(hex_char_of((n % 16) as int))
    }
}

/// The value of a hex digit string, most significant first.
pub open spec fn hex_val(s: Seq<char>) -> nat
    decreases s.len(),
{
    if s.len() == 0 {
        0
    } else {
        (hex_val(s.drop_last()) * 16 + (match char_hex(s.last()) {
            Some(d) => d,
            None => 0,
        })) as nat
    }
}

/// Sixteen to the power `w`.
pub open spec fn pow16(w: nat) -> nat
    decreases w,
{
    if w == 0 {
        1
    } else {
        16 * pow16((w - 1) as nat)
    }
}

/// Law: a fixed-width hex numeral consists of hex digits, `w` of them.
pub proof fn lemma_hex_fixed_are_hex(n: nat, w: nat)
    ensures
        hex_fixed(n, w).len() == w,
        forall|i: int| 0 <= i < w ==> char_hex(#[trigger] hex_fixed(n, w)[i]) is Some,
    decreases w,
{
    if w > 0 {
        lemma_hex_fixed_are_hex(n / 16, (w - 1) as nat);
        assert forall|i: int| 0 <= i < w implies char_hex(#[trigger] hex_fixed(n, w)[i]) is Some by {
            if i < w - 1 {
                assert(hex_fixed(n, w)[i] == hex_fixed(n / 16, (w - 1) as nat)[i]);
            } else {
                assert(hex_fixed(n, w)[i] == hex_char_of((n % 16) as int));
                lemma_hex_digit_roundtrip((n % 16) as int);
            }
        }
    }
}

/// Law: a value below sixteen-to-the-width reads back from its fixed-width
/// hex numeral.
pub proof fn lemma_hex_fixed_roundtrip(n: nat, w: nat)
    requires
        n < pow16(w),
    ensures
        hex_val(hex_fixed(n, w)) == n,
    decreases w,
{
    if w == 0 {
    } else {
        assert(n / 16 < pow16((w - 1) as nat)) by {
            lemma_fundamental_div_mod(n as int, 16);
        };
        lemma_hex_fixed_roundtrip(n / 16, (w - 1) as nat);
        lemma_hex_fixed_are_hex(n / 16, (w - 1) as nat);
        assert(hex_fixed(n, w).drop_last() =~= hex_fixed(n / 16, (w - 1) as nat));
        assert(hex_fixed(n, w).last() == hex_char_of((n % 16) as int));
        lemma_hex_digit_roundtrip((n % 16) as int);
        assert(hex_val(hex_fixed(n, w)) == (n / 16) * 16 + n % 16);
        lemma_fundamental_div_mod(n as int, 16);
    }
}

/// The canonical hyphenated form of a 128-bit id: 8-4-4-4-12 hex digits.
pub open spec fn uuid_chars(u: u128) -> Seq<char> {
    let h = hex_fixed(u as nat, 32);
    h.subrange(0, 8) + seq!['-'] + h.subrange(8, 12) + seq!['-'] + h.subrange(12, 16) + seq!['-']
        + h.subrange(16, 20) + seq!['-'] + h.subrange(20, 32)
}

/// The id a hyphenated hex text denotes, if it is one.
pub open spec fn uuid_of_chars(s: Seq<char>) -> Option<u128> {
    if s.len() == 36 && s[8] == '-' && s[13] == '-' && s[18] == '-' && s[23] == '-' {
        let h = s.subrange(0, 8) + s.subrange(9, 13) + s.subrange(14, 18) + s.subrange(19, 23)
            + s.subrange(24, 36);
        if forall|i: int| 0 <= i < h.len() ==> char_hex(#[trigger] h[i]) is Some {
            Some(hex_val(h) as u128)
        } else {
            None
        }
    } else {
        None
    }
}

/// Law: thirty-two hex digits denote a value the machine word holds.
pub proof fn lemma_hex_val_bound(s: Seq<char>)
    ensures
        hex_val(s) < pow16(s.len()),
    decreases s.len(),
{
    if s.len() > 0 {
        lemma_hex_val_bound(s.drop_last());
        assert(pow16(s.len()) == 16 * pow16((s.len() - 1) as nat));
        if char_hex(s.last()) is Some {
            lemma_char_hex_small(s.last());
        }
    }
}

/// Law: a hex digit's value is below sixteen.
pub proof fn lemma_char_hex_small(c: char)
    ensures
        (match char_hex(c) {
            Some(d) => 0 <= d < 16,
            None => true,
        }),
{
}

/// Law: a written id reads back exactly.
pub proof fn lemma_uuid_roundtrip(u: u128)
    ensures
        uuid_of_chars(uuid_chars(u)) == Some(u),
{
    let h = hex_fixed(u as nat, 32);
    lemma_hex_fixed_are_hex(u as nat, 32);
    let s = uuid_chars(u);
    assert(s.len() == 36);
    assert(s[8] == '-');
    assert(s[13] == '-');
    assert(s[18] == '-');
    assert(s[23] == '-');
    let g = s.subrange(0, 8) + s.subrange(9, 13) + s.subrange(14, 18) + s.subrange(19, 23)
        + s.subrange(24, 36);
    assert(g =~= h);
    assert((u as nat) < pow16(32)) by {
        assert(pow16(32) == 0x100000000000000000000000000000000) by {
            reveal_with_fuel(pow16, 33);
        };
    };
    lemma_hex_fixed_roundtrip(u as nat, 32);
}

/// The textual form of an address: dotted decimal for v4, eight groups of
/// four hex digits for v6.
pub open spec fn ip_chars(ip: IpAddress) -> Seq<char> {
    match ip {
        IpAddress::V4(v) => dec_digits((v >> 24) as nat) + seq!['.'] + dec_digits(
            ((v >> 16) & 0xff) as nat,
        ) + seq!['.'] + dec_digits(((v >> 8) & 0xff) as nat) + seq!['.'] + dec_digits(
            (v & 0xff) as nat,
        ),
        IpAddress::V6(v) => {
            let h = hex_fixed(v as nat, 32);
            h.subrange(0, 4) + seq![':'] + h.subrange(4, 8) + seq![':'] + h.subrange(8, 12)
                + seq![':'] + h.subrange(12, 16) + seq![':'] + h.subrange(16, 20) + seq![':']
                + h.subrange(20, 24) + seq![':'] + h.subrange(24, 28) + seq![':'] + h.subrange(
                28,
                32,
            )
        },
    }
}

/// Reads one dotted-decimal part and the rest after its terminator.
pub open spec fn parse_v4_part(s: Seq<char>) -> Option<(nat, Seq<char>)> {
    match parse_nat(s) {
        None => None,
        Some((n, r)) => if n <= 255 {
            Some((n, r))
        } else {
            None
        },
    }
}

/// The v4 address a dotted-decimal text denotes, if it is one.
pub open spec fn v4_of_chars(s: Seq<char>) -> Option<u32> {
    match parse_v4_part(s) {
        None => None,
        Some((a, r1)) => match expect_lit(r1, seq!['.']) {
            None => None,
            Some(r1b) => match parse_v4_part(r1b) {
                None => None,
                Some((b, r2)) => match expect_lit(r2, seq!['.']) {
                    None => None,
                    Some(r2b) => match parse_v4_part(r2b) {
                        None => None,
                        Some((c, r3)) => match expect_lit(r3, seq!['.']) {
                            None => None,
                            Some(r3b) => match parse_v4_part(r3b) {
                                None => None,
                                Some((d, r4)) => if r4.len() == 0 {
                                    Some(
                                        ((a * 0x1000000 + b * 0x10000 + c * 0x100
                                            + d) as u32),
                                    )
                                } else {
                                    None
                                },
                            },
                        },
                    },
                },
            },
        },
    }
}

/// The address a text denotes: eight hex groups for v6, dotted decimal for
/// v4.
pub open spec fn ip_of_chars(s: Seq<char>) -> Option<IpAddress> {
    if s.len() == 39 {
        if s[4] == ':' && s[9] == ':' && s[14] == ':' && s[19] == ':' && s[24] == ':' && s[29]
            == ':' && s[34] == ':' {
            let h = s.subrange(0, 4) + s.subrange(5, 9) + s.subrange(10, 14) + s.subrange(15, 19)
                + s.subrange(20, 24) + s.subrange(25, 29) + s.subrange(30, 34) + s.subrange(35, 39);
            if forall|i: int| 0 <= i < h.len() ==> char_hex(#[trigger] h[i]) is Some {
                Some(IpAddress::V6(hex_val(h) as u128))
            } else {
                None
            }
        } else {
            None
        }
    } else {
        match v4_of_chars(s) {
            Some(v) => Some(IpAddress::V4(v)),
            None => None,
        }
    }
}

/// Law: the numeral of a byte-sized value has at most three digits.
pub proof fn lemma_dec_digits_short(n: nat)
    requires
        n < 1000,
    ensures
        dec_digits(n).len() <= 3,
{
    if n < 10 {
    } else {
        assert(dec_digits(n).len() == dec_digits(n / 10).len() + 1);
        if n / 10 < 10 {
            assert(dec_digits(n / 10).len() == 1);
        } else {
            assert(dec_digits(n / 10).len() == dec_digits(n / 10 / 10).len() + 1);
            assert(n / 10 / 10 < 10);
            assert(dec_digits(n / 10 / 10).len() == 1);
        }
    }
}

/// Law: a written address reads back exactly.
#[verifier::rlimit(100)]
#[verifier::spinoff_prover]
pub proof fn lemma_ip_roundtrip(ip: IpAddress)
    ensures
        ip_of_chars(ip_chars(ip)) == Some(ip),
{
    match ip {
        IpAddress::V4(v) => {
            let a = (v >> 24) as nat;
            let b = ((v >> 16) & 0xff) as nat;
            let c = ((v >> 8) & 0xff) as nat;
            let d = (v & 0xff) as nat;
            assert(v >> 24 < 256 && (v >> 16) & 0xff < 256 && (v >> 8) & 0xff < 256 && v & 0xff
                < 256) by (bit_vector);
            lemma_dec_digits_short(a);
            lemma_dec_digits_short(b);
            lemma_dec_digits_short(c);
            lemma_dec_digits_short(d);
            let s = ip_chars(ip);
            assert(s.len() <= 15);
            let t2 = seq!['.'] + dec_digits(b) + seq!['.'] + dec_digits(c) + seq!['.']
                + dec_digits(d);
            assert(s =~= dec_digits(a) + t2);
            lemma_parse_nat_roundtrip(a, t2);
            let t2b = dec_digits(b) + (seq!['.'] + dec_digits(c) + seq!['.'] + dec_digits(d));
            assert(t2 =~= seq!['.'] + t2b);
            lemma_expect_lit(seq!['.'], t2b);
            assert(t2.skip(1) =~= t2b);
            let t3 = seq!['.'] + dec_digits(c) + seq!['.'] + dec_digits(d);
            assert(t2b =~= dec_digits(b) + t3);
            lemma_parse_nat_roundtrip(b, t3);
            let t3b = dec_digits(c) + (seq!['.'] + dec_digits(d));
            assert(t3 =~= seq!['.'] + t3b);
            lemma_expect_lit(seq!['.'], t3b);
            assert(t3.skip(1) =~= t3b);
            let t4 = seq!['.'] + dec_digits(d);
            assert(t3b =~= dec_digits(c) + t4);
            lemma_parse_nat_roundtrip(c, t4);
            let t4b = dec_digits(d);
            assert(t4 =~= seq!['.'] + t4b);
            lemma_expect_lit(seq!['.'], t4b);
            assert(t4.skip(1) =~= t4b);
            assert(t4b =~= dec_digits(d) + Seq::<char>::empty());
            lemma_parse_nat_roundtrip(d, Seq::empty());
            assert((v >> 24) * 0x1000000 + ((v >> 16) & 0xff) * 0x10000 + ((v >> 8) & 0xff) * 0x100
                + (v & 0xff) == v) by (bit_vector);
        },
        IpAddress::V6(v) => {
            let h = hex_fixed(v as nat, 32);
            lemma_hex_fixed_are_hex(v as nat, 32);
            let s = ip_chars(ip);
            assert(s.len() == 39);
            assert(s[4] == ':' && s[9] == ':' && s[14] == ':' && s[19] == ':' && s[24] == ':'
                && s[29] == ':' && s[34] == ':');
            let g = s.subrange(0, 4) + s.subrange(5, 9) + s.subrange(10, 14) + s.subrange(15, 19)
                + s.subrange(20, 24) + s.subrange(25, 29) + s.subrange(30, 34) + s.subrange(35, 39);
            assert(g =~= h);
            assert((v as nat) < pow16(32)) by {
                assert(pow16(32) == 0x100000000000000000000000000000000) by {
                    reveal_with_fuel(pow16, 33);
                };
            };
            lemma_hex_fixed_roundtrip(v as nat, 32);
        },
    }
}

/// A moment as a JSON integer, negative moments with a leading minus.
pub open spec fn enc_ji64(x: i64) -> Seq<char> {
    if x >= 0 {
        dec_digits(x as nat)
    } else {
        seq!['-'] + dec_digits((-(x as int)) as nat)
    }
}

/// Reads one JSON integer in the range of a moment off the front.
pub open spec fn parse_ji64(s: Seq<char>) -> Option<(i64, Seq<char>)> {
    if s.len() > 0 && s[0] == '-' {
        match parse_nat(s.drop_first()) {
            None => None,
            Some((n, r)) => if n <= 0x8000000000000000 {
                Some(((-(n as int)) as i64, r))
            } else {
                None
            },
        }
    } else {
        match parse_nat(s) {
            None => None,
            Some((n, r)) => if n <= 0x7fffffffffffffff {
                Some((n as i64, r))
            } else {
                None
            },
        }
    }
}

/// Law: a written moment reads back, leaving what followed its digits.
pub proof fn lemma_parse_ji64_roundtrip(x: i64, rest: Seq<char>)
    requires
        rest.len() == 0 || !is_digit(rest[0]),
    ensures
        parse_ji64(enc_ji64(x) + rest) == Some((x, rest)),
{
    if x >= 0 {
        lemma_parse_nat_roundtrip(x as nat, rest);
        lemma_dec_digits_are_digits(x as nat);
        let s = enc_ji64(x) + rest;
        assert(s[0] == dec_digits(x as nat)[0]);
    } else {
        let m = (-(x as int)) as nat;
        let s = enc_ji64(x) + rest;
        assert(s =~= seq!['-'] + (dec_digits(m) + rest));
        assert(s[0] == '-');
        assert(s.drop_first() =~= dec_digits(m) + rest);
        lemma_parse_nat_roundtrip(m, rest);
    }
}

/// An optional text value: `null` when absent, a quoted string otherwise.
pub open spec fn enc_opt_jstr(o: Option<Seq<char>>) -> Seq<char> {
    match o {
        None => "null"@,
        Some(t) => enc_jstr(t),
    }
}

/// Reads one optional text value off the front.
pub open spec fn parse_opt_jstr(s: Seq<char>) -> Option<(Option<Seq<char>>, Seq<char>)> {
    if s.len() > 0 && s[0] == 'n' {
        match expect_lit(s, "null"@) {
            None => None,
            Some(r) => Some((None, r)),
        }
    } else {
        match parse_jstr(s) {
            None => None,
            Some((t, r)) => Some((Some(t), r)),
        }
    }
}

/// Law: a written optional text reads back exactly.
pub proof fn lemma_parse_opt_jstr_roundtrip(o: Option<Seq<char>>, rest: Seq<char>)
    ensures
        parse_opt_jstr(enc_opt_jstr(o) + rest) == Some((o, rest)),
{
    reveal_strlit("null");
    match o {
        None => {
            assert((enc_opt_jstr(o) + rest)[0] == 'n');
            lemma_expect_lit("null"@, rest);
        },
        Some(t) => {
            let s = enc_opt_jstr(o) + rest;
            assert(s[0] == '"');
            assert('n' != '"');
            lemma_parse_jstr_roundtrip(t, rest);
        },
    }
}

/// An optional moment: `null` when absent, an integer otherwise.
pub open spec fn enc_opt_ji64(o: Option<i64>) -> Seq<char> {
    match o {
        None => "null"@,
        Some(x) => enc_ji64(x),
    }
}

/// Reads one optional moment off the front.
pub open spec fn parse_opt_ji64(s: Seq<char>) -> Option<(Option<i64>, Seq<char>)> {
    if s.len() > 0 && s[0] == 'n' {
        match expect_lit(s, "null"@) {
            None => None,
            Some(r) => Some((None, r)),
        }
    } else {
        match parse_ji64(s) {
            None => None,
            Some((x, r)) => Some((Some(x), r)),
        }
    }
}

/// Law: a written optional moment reads back, leaving what followed it.
pub proof fn lemma_parse_opt_ji64_roundtrip(o: Option<i64>, rest: Seq<char>)
    requires
        rest.len() == 0 || !is_digit(rest[0]),
    ensures
        parse_opt_ji64(enc_opt_ji64(o) + rest) == Some((o, rest)),
{
    reveal_strlit("null");
    match o {
        None => {
            assert((enc_opt_ji64(o) + rest)[0] == 'n');
            lemma_expect_lit("null"@, rest);
        },
        Some(x) => {
            let s = enc_opt_ji64(o) + rest;
            lemma_parse_ji64_roundtrip(x, rest);
            if x >= 0 {
                lemma_dec_digits_are_digits(x as nat);
                assert(s[0] == dec_digits(x as nat)[0]);
                assert(is_digit(s[0]));
                assert(s[0] != 'n');
            } else {
                assert(s[0] == '-');
            }
        },
    }
}

/// A flag: the `true` or `false` literal.
pub open spec fn enc_jbool(b: bool) -> Seq<char> {
    if b {
        "true"@
    } else {
        "false"@
    }
}

/// Reads one flag off the front.
pub open spec fn parse_jbool(s: Seq<char>) -> Option<(bool, Seq<char>)> {
    if s.len() > 0 && s[0] == 't' {
        match expect_lit(s, "true"@) {
            None => None,
            Some(r) => Some((true, r)),
        }
    } else {
        match expect_lit(s, "false"@) {
            None => None,
            Some(r) => Some((false, r)),
        }
    }
}

/// Law: a written flag reads back exactly.
pub proof fn lemma_parse_jbool_roundtrip(b: bool, rest: Seq<char>)
    ensures
        parse_jbool(enc_jbool(b) + rest) == Some((b, rest)),
{
    reveal_strlit("true");
    reveal_strlit("false");
    if b {
        assert((enc_jbool(b) + rest)[0] == 't');
        lemma_expect_lit("true"@, rest);
    } else {
        assert((enc_jbool(b) + rest)[0] == 'f');
        lemma_expect_lit("false"@, rest);
    }
}

// ---------------------------------------------------------------------------
// Entry objects and documents
// ---------------------------------------------------------------------------

/// Positions the input at a field's value: optional whitespace, the quoted
/// key, optional whitespace, a colon, optional whitespace.
pub open spec fn after_key(s: Seq<char>, key: Seq<char>) -> Option<Seq<char>> {
    match expect_lit(skip_ws(s), key) {
        None => None,
        Some(r) => match expect_lit(skip_ws(r), seq![':']) {
            None => None,
            Some(r2) => Some(skip_ws(r2)),
        },
    }
}

/// Law: a key written as `"key":` immediately before its value positions
/// the parser exactly at the value.
pub proof fn lemma_after_key(key: Seq<char>, v: Seq<char>)
    requires
        key.len() > 0,
        !is_ws(key[0]),
        v.len() > 0,
        !is_ws(v[0]),
    ensures
        after_key(key + seq![':'] + v, key) == Some(v),
{
    let s = key + seq![':'] + v;
    assert(s[0] == key[0]);
    assert(skip_ws(s) == s);
    assert(s =~= key + (seq![':'] + v));
    lemma_expect_lit(key, seq![':'] + v);
    let r = seq![':'] + v;
    assert(r[0] == ':');
    assert(skip_ws(r) == r);
    lemma_expect_lit(seq![':'], v);
    assert(skip_ws(v) == v);
}

/// Expects a comma, after optional whitespace.
pub open spec fn after_comma(s: Seq<char>) -> Option<Seq<char>> {
    expect_lit(skip_ws(s), seq![','])
}

/// Law: a written comma reads back.
pub proof fn lemma_after_comma(rest: Seq<char>)
    ensures
        after_comma(seq![','] + rest) == Some(rest),
{
    let s = seq![','] + rest;
    assert(s[0] == ',');
    assert(skip_ws(s) == s);
    lemma_expect_lit(seq![','], rest);
}

/// Law: a digit is not whitespace, a comma, a quote or a letter the other
/// value forms begin with.
pub proof fn lemma_digit_shape(c: char)
    requires
        is_digit(c),
    ensures
        !is_ws(c),
        c != 'n',
        c != '-',
        c != '"',
{
}

/// One banned-IP entry as an object with its four fields in order.
pub open spec fn enc_ip_entry(e: IpEntryView) -> Seq<char> {
    "{\"ip\":\""@ + ip_chars(e.ip) + "\",\"reason\":"@ + enc_opt_jstr(e.reason) + ",\"expires\":"@
        + enc_opt_ji64(e.expires) + ",\"source\":"@ + enc_jstr(e.source) + "}"@
}

/// Reads one banned-IP entry object off the front.
pub open spec fn parse_ip_entry(s: Seq<char>) -> Option<(IpEntryView, Seq<char>)> {
    match expect_lit(skip_ws(s), seq!['{']) {
        None => None,
        Some(s0) => match after_key(s0, "\"ip\""@) {
            None => None,
            Some(v0) => match parse_jstr(v0) {
                None => None,
                Some((ipc, r0)) => match ip_of_chars(ipc) {
                    None => None,
                    Some(ip) => match after_comma(r0) {
                        None => None,
                        Some(c1) => match after_key(c1, "\"reason\""@) {
                            None => None,
                            Some(v1) => match parse_opt_jstr(v1) {
                                None => None,
                                Some((reason, r1)) => match after_comma(r1) {
                                    None => None,
                                    Some(c2) => match after_key(c2, "\"expires\""@) {
                                        None => None,
                                        Some(v2) => match parse_opt_ji64(v2) {
                                            None => None,
                                            Some((expires, r2)) => match after_comma(r2) {
                                                None => None,
                                                Some(c3) => match after_key(c3, "\"source\""@) {
                                                    None => None,
                                                    Some(v3) => match parse_jstr(v3) {
                                                        None => None,
                                                        Some((source, r3)) => match expect_lit(
                                                            skip_ws(r3),
                                                            seq!['}'],
                                                        ) {
                                                            None => None,
                                                            Some(rest) => Some(
                                                                (
                                                                    IpEntryView {
                                                                        ip,
                                                                        reason,
                                                                        expires,
                                                                        source,
                                                                    },
                                                                    rest,
                                                                ),
                                                            ),
                                                        },
                                                    },
                                                },
                                            },
                                        },
                                    },
                                },
                            },
                        },
                    },
                },
            },
        },
    }
}

/// Law: the characters of an address's textual form are never specials.
pub proof fn lemma_ip_chars_clean(ip: IpAddress)
    ensures
        forall|i: int| 0 <= i < ip_chars(ip).len() ==> #[trigger] ip_chars(ip)[i] != '"' && ip_chars(
            ip,
        )[i] != '\\',
{
    match ip {
        IpAddress::V4(v) => {
            lemma_dec_digits_are_digits((v >> 24) as nat);
            lemma_dec_digits_are_digits(((v >> 16) & 0xff) as nat);
            lemma_dec_digits_are_digits(((v >> 8) & 0xff) as nat);
            lemma_dec_digits_are_digits((v & 0xff) as nat);
        },
        IpAddress::V6(v) => {
            lemma_hex_fixed_are_hex(v as nat, 32);
        },
    }
}

/// Law: a written banned-IP entry reads back exactly.
#[verifier::rlimit(100)]
#[verifier::spinoff_prover]
pub proof fn lemma_parse_ip_entry_roundtrip(e: IpEntryView, rest: Seq<char>)
    ensures
        parse_ip_entry(enc_ip_entry(e) + rest) == Some((e, rest)),
{
    reveal_strlit("{\"ip\":\"");
    reveal_strlit("\",\"reason\":");
    reveal_strlit(",\"expires\":");
    reveal_strlit(",\"source\":");
    reveal_strlit("}");
    reveal_strlit("\"ip\"");
    reveal_strlit("\"reason\"");
    reveal_strlit("\"expires\"");
    reveal_strlit("\"source\"");
    reveal_strlit("null");
    let s = enc_ip_entry(e) + rest;
    let v0 = seq!['"'] + ip_chars(e.ip) + seq!['"'] + ("\",\"reason\":"@.skip(1) + enc_opt_jstr(
        e.reason,
    ) + ",\"expires\":"@ + enc_opt_ji64(e.expires) + ",\"source\":"@ + enc_jstr(e.source) + "}"@
        + rest);
    assert(s =~= seq!['{'] + ("\"ip\""@ + seq![':'] + v0));
    assert(s[0] == '{');
    assert(skip_ws(s) == s);
    lemma_expect_lit(seq!['{'], "\"ip\""@ + seq![':'] + v0);
    lemma_after_key("\"ip\""@, v0);
    // the ip value: a quoted clean string
    lemma_ip_chars_clean(e.ip);
    lemma_esc_clean(ip_chars(e.ip));
    let r0 = "\",\"reason\":"@.skip(1) + enc_opt_jstr(e.reason) + ",\"expires\":"@ + enc_opt_ji64(
        e.expires,
    ) + ",\"source\":"@ + enc_jstr(e.source) + "}"@ + rest;
    assert(v0 =~= enc_jstr(ip_chars(e.ip)) + r0);
    lemma_parse_jstr_roundtrip(ip_chars(e.ip), r0);
    lemma_ip_roundtrip(e.ip);
    // ,"reason": value
    let v1 = enc_opt_jstr(e.reason) + (",\"expires\":"@ + enc_opt_ji64(e.expires) + ",\"source\":"@
        + enc_jstr(e.source) + "}"@ + rest);
    assert(r0 =~= seq![','] + ("\"reason\""@ + seq![':'] + v1));
    lemma_after_comma("\"reason\""@ + seq![':'] + v1);
    assert((match e.reason {
        None => v1[0] == 'n',
        Some(t) => v1[0] == '"',
    }));
    lemma_after_key("\"reason\""@, v1);
    let r1 = ",\"expires\":"@ + enc_opt_ji64(e.expires) + ",\"source\":"@ + enc_jstr(e.source)
        + "}"@ + rest;
    assert(v1 =~= enc_opt_jstr(e.reason) + r1);
    lemma_parse_opt_jstr_roundtrip(e.reason, r1);
    // ,"expires": value
    let v2 = enc_opt_ji64(e.expires) + (",\"source\":"@ + enc_jstr(e.source) + "}"@ + rest);
    assert(r1 =~= seq![','] + ("\"expires\""@ + seq![':'] + v2));
    lemma_after_comma("\"expires\""@ + seq![':'] + v2);
    assert((match e.expires {
        None => v2[0] == 'n',
        Some(x) => if x >= 0 {
            v2[0] == dec_digits(x as nat)[0]
        } else {
            v2[0] == '-'
        },
    }));
    if e.expires is Some && e.expires.unwrap() >= 0 {
        lemma_dec_digits_are_digits(e.expires.unwrap() as nat);
        lemma_digit_shape(dec_digits(e.expires.unwrap() as nat)[0]);
    }
    lemma_after_key("\"expires\""@, v2);
    let r2 = ",\"source\":"@ + enc_jstr(e.source) + "}"@ + rest;
    assert(v2 =~= enc_opt_ji64(e.expires) + r2);
    assert(r2[0] == ',');
    lemma_parse_opt_ji64_roundtrip(e.expires, r2);
    // ,"source": value
    let v3 = enc_jstr(e.source) + ("}"@ + rest);
    assert(r2 =~= seq![','] + ("\"source\""@ + seq![':'] + v3));
    lemma_after_comma("\"source\""@ + seq![':'] + v3);
    lemma_after_key("\"source\""@, v3);
    let r3 = "}"@ + rest;
    assert(v3 =~= enc_jstr(e.source) + r3);
    lemma_parse_jstr_roundtrip(e.source, r3);
    // closing brace
    assert(r3 =~= seq!['}'] + rest);
    assert(r3[0] == '}');
    assert(skip_ws(r3) == r3);
    lemma_expect_lit(seq!['}'], rest);
}

/// Law: the characters of an id's hyphenated form are never specials.
pub proof fn lemma_uuid_chars_clean(u: u128)
    ensures
        forall|i: int|
            0 <= i < uuid_chars(u).len() ==> #[trigger] uuid_chars(u)[i] != '"' && uuid_chars(u)[i]
                != '\\',
{
    lemma_hex_fixed_are_hex(u as nat, 32);
}

/// One banned-player entry as an object with its five fields in order.
pub open spec fn enc_player_entry(e: PlayerEntryView) -> Seq<char> {
    "{\"uuid\":\""@ + uuid_chars(e.uuid) + "\",\"name\":"@ + enc_jstr(e.name) + ",\"reason\":"@
        + enc_opt_jstr(e.reason) + ",\"expires\":"@ + enc_opt_ji64(e.expires) + ",\"source\":"@
        + enc_jstr(e.source) + "}"@
}

/// Reads one banned-player entry object off the front.
pub open spec fn parse_player_entry(s: Seq<char>) -> Option<(PlayerEntryView, Seq<char>)> {
    match expect_lit(skip_ws(s), seq!['{']) {
        None => None,
        Some(s0) => match after_key(s0, "\"uuid\""@) {
            None => None,
            Some(v0) => match parse_jstr(v0) {
                None => None,
                Some((uc, r0)) => match uuid_of_chars(uc) {
                    None => None,
                    Some(uuid) => match after_comma(r0) {
                        None => None,
                        Some(c1) => match after_key(c1, "\"name\""@) {
                            None => None,
                            Some(v1) => match parse_jstr(v1) {
                                None => None,
                                Some((name, r1)) => match after_comma(r1) {
                                    None => None,
                                    Some(c2) => match after_key(c2, "\"reason\""@) {
                                        None => None,
                                        Some(v2) => match parse_opt_jstr(v2) {
                                            None => None,
                                            Some((reason, r2)) => match after_comma(r2) {
                                                None => None,
                                                Some(c3) => match after_key(c3, "\"expires\""@) {
                                                    None => None,
                                                    Some(v3) => match parse_opt_ji64(v3) {
                                                        None => None,
                                                        Some((expires, r3)) => match after_comma(
                                                            r3,
                                                        ) {
                                                            None => None,
                                                            Some(c4) => match after_key(
                                                                c4,
                                                                "\"source\""@,
                                                            ) {
                                                                None => None,
                                                                Some(v4) => match parse_jstr(v4) {
                                                                    None => None,
                                                                    Some((source, r4)) => match
                                                                        expect_lit(
                                                                        skip_ws(r4),
                                                                        seq!['}'],
                                                                    ) {
                                                                        None => None,
                                                                        Some(rest) => Some(
                                                                            (
                                                                                PlayerEntryView {
                                                                                    uuid,
                                                                                    name,
                                                                                    reason,
                                                                                    expires,
                                                                                    source,
                                                                                },
                                                                                rest,
                                                                            ),
                                                                        ),
                                                                    },
                                                                },
                                                            },
                                                        },
                                                    },
                                                },
                                            },
                                        },
                                    },
                                },
                            },
                        },
                    },
                },
            },
        },
    }
}

/// Law: a written banned-player entry reads back exactly.
#[verifier::rlimit(100)]
#[verifier::spinoff_prover]
pub proof fn lemma_parse_player_entry_roundtrip(e: PlayerEntryView, rest: Seq<char>)
    ensures
        parse_player_entry(enc_player_entry(e) + rest) == Some((e, rest)),
{
    reveal_strlit("{\"uuid\":\"");
    reveal_strlit("\",\"name\":");
    reveal_strlit(",\"reason\":");
    reveal_strlit(",\"expires\":");
    reveal_strlit(",\"source\":");
    reveal_strlit("}");
    reveal_strlit("\"uuid\"");
    reveal_strlit("\"name\"");
    reveal_strlit("\"reason\"");
    reveal_strlit("\"expires\"");
    reveal_strlit("\"source\"");
    reveal_strlit("null");
    let s = enc_player_entry(e) + rest;
    let tail1 = "\",\"name\":"@.skip(1) + enc_jstr(e.name) + ",\"reason\":"@ + enc_opt_jstr(
        e.reason,
    ) + ",\"expires\":"@ + enc_opt_ji64(e.expires) + ",\"source\":"@ + enc_jstr(e.source) + "}"@
        + rest;
    let v0 = seq!['"'] + uuid_chars(e.uuid) + seq!['"'] + tail1;
    assert(s =~= seq!['{'] + ("\"uuid\""@ + seq![':'] + v0));
    assert(s[0] == '{');
    assert(skip_ws(s) == s);
    lemma_expect_lit(seq!['{'], "\"uuid\""@ + seq![':'] + v0);
    lemma_after_key("\"uuid\""@, v0);
    lemma_uuid_chars_clean(e.uuid);
    lemma_esc_clean(uuid_chars(e.uuid));
    let r0 = tail1;
    assert(v0 =~= enc_jstr(uuid_chars(e.uuid)) + r0);
    lemma_parse_jstr_roundtrip(uuid_chars(e.uuid), r0);
    lemma_uuid_roundtrip(e.uuid);
    // ,"name": value
    let v1 = enc_jstr(e.name) + (",\"reason\":"@ + enc_opt_jstr(e.reason) + ",\"expires\":"@
        + enc_opt_ji64(e.expires) + ",\"source\":"@ + enc_jstr(e.source) + "}"@ + rest);
    assert(r0 =~= seq![','] + ("\"name\""@ + seq![':'] + v1));
    lemma_after_comma("\"name\""@ + seq![':'] + v1);
    lemma_after_key("\"name\""@, v1);
    let r1 = ",\"reason\":"@ + enc_opt_jstr(e.reason) + ",\"expires\":"@ + enc_opt_ji64(e.expires)
        + ",\"source\":"@ + enc_jstr(e.source) + "}"@ + rest;
    assert(v1 =~= enc_jstr(e.name) + r1);
    lemma_parse_jstr_roundtrip(e.name, r1);
    // ,"reason": value
    let v2 = enc_opt_jstr(e.reason) + (",\"expires\":"@ + enc_opt_ji64(e.expires) + ",\"source\":"@
        + enc_jstr(e.source) + "}"@ + rest);
    assert(r1 =~= seq![','] + ("\"reason\""@ + seq![':'] + v2));
    lemma_after_comma("\"reason\""@ + seq![':'] + v2);
    assert((match e.reason {
        None => v2[0] == 'n',
        Some(t) => v2[0] == '"',
    }));
    lemma_after_key("\"reason\""@, v2);
    let r2 = ",\"expires\":"@ + enc_opt_ji64(e.expires) + ",\"source\":"@ + enc_jstr(e.source)
        + "}"@ + rest;
    assert(v2 =~= enc_opt_jstr(e.reason) + r2);
    lemma_parse_opt_jstr_roundtrip(e.reason, r2);
    // ,"expires": value
    let v3 = enc_opt_ji64(e.expires) + (",\"source\":"@ + enc_jstr(e.source) + "}"@ + rest);
    assert(r2 =~= seq![','] + ("\"expires\""@ + seq![':'] + v3));
    lemma_after_comma("\"expires\""@ + seq![':'] + v3);
    assert((match e.expires {
        None => v3[0] == 'n',
        Some(x) => if x >= 0 {
            v3[0] == dec_digits(x as nat)[0]
        } else {
            v3[0] == '-'
        },
    }));
    if e.expires is Some && e.expires.unwrap() >= 0 {
        lemma_dec_digits_are_digits(e.expires.unwrap() as nat);
        lemma_digit_shape(dec_digits(e.expires.unwrap() as nat)[0]);
    }
    lemma_after_key("\"expires\""@, v3);
    let r3 = ",\"source\":"@ + enc_jstr(e.source) + "}"@ + rest;
    assert(v3 =~= enc_opt_ji64(e.expires) + r3);
    assert(r3[0] == ',');
    lemma_parse_opt_ji64_roundtrip(e.expires, r3);
    // ,"source": value
    let v4 = enc_jstr(e.source) + ("}"@ + rest);
    assert(r3 =~= seq![','] + ("\"source\""@ + seq![':'] + v4));
    lemma_after_comma("\"source\""@ + seq![':'] + v4);
    lemma_after_key("\"source\""@, v4);
    let r4 = "}"@ + rest;
    assert(v4 =~= enc_jstr(e.source) + r4);
    lemma_parse_jstr_roundtrip(e.source, r4);
    assert(r4 =~= seq!['}'] + rest);
    assert(r4[0] == '}');
    assert(skip_ws(r4) == r4);
    lemma_expect_lit(seq!['}'], rest);
}

/// One operator grant as an object with its four fields in order.
pub open spec fn enc_op_entry(e: OpView) -> Seq<char> {
    "{\"uuid\":\""@ + uuid_chars(e.uuid) + "\",\"name\":"@ + enc_jstr(e.name)
        + ",\"permission_level\":"@ + dec_digits(e.permission_level as nat)
        + ",\"bypasses_player_limit\":"@ + enc_jbool(e.bypasses_player_limit) + "}"@
}

/// Reads one operator grant object off the front.
pub open spec fn parse_op_entry(s: Seq<char>) -> Option<(OpView, Seq<char>)> {
    match expect_lit(skip_ws(s), seq!['{']) {
        None => None,
        Some(s0) => match after_key(s0, "\"uuid\""@) {
            None => None,
            Some(v0) => match parse_jstr(v0) {
                None => None,
                Some((uc, r0)) => match uuid_of_chars(uc) {
                    None => None,
                    Some(uuid) => match after_comma(r0) {
                        None => None,
                        Some(c1) => match after_key(c1, "\"name\""@) {
                            None => None,
                            Some(v1) => match parse_jstr(v1) {
                                None => None,
                                Some((name, r1)) => match after_comma(r1) {
                                    None => None,
                                    Some(c2) => match after_key(c2, "\"permission_level\""@) {
                                        None => None,
                                        Some(v2) => match parse_nat(v2) {
                                            None => None,
                                            Some((level, r2)) => if level <= 255 {
                                                match after_comma(r2) {
                                                    None => None,
                                                    Some(c3) => match after_key(
                                                        c3,
                                                        "\"bypasses_player_limit\""@,
                                                    ) {
                                                        None => None,
                                                        Some(v3) => match parse_jbool(v3) {
                                                            None => None,
                                                            Some((bypass, r3)) => match expect_lit(
                                                                skip_ws(r3),
                                                                seq!['}'],
                                                            ) {
                                                                None => None,
                                                                Some(rest) => Some(
                                                                    (
                                                                        OpView {
                                                                            uuid,
                                                                            name,
                                                                            permission_level: (
                                                                            level as u8),
                                                                            bypasses_player_limit:
                                                                                bypass,
                                                                        },
                                                                        rest,
                                                                    ),
                                                                ),
                                                            },
                                                        },
                                                    },
                                                }
                                            } else {
                                                None
                                            },
                                        },
                                    },
                                },
                            },
                        },
                    },
                },
            },
        },
    }
}

/// Law: a written operator grant reads back exactly.
#[verifier::rlimit(100)]
#[verifier::spinoff_prover]
pub proof fn lemma_parse_op_entry_roundtrip(e: OpView, rest: Seq<char>)
    ensures
        parse_op_entry(enc_op_entry(e) + rest) == Some((e, rest)),
{
    reveal_strlit("{\"uuid\":\"");
    reveal_strlit("\",\"name\":");
    reveal_strlit(",\"permission_level\":");
    reveal_strlit(",\"bypasses_player_limit\":");
    reveal_strlit("}");
    reveal_strlit("\"uuid\"");
    reveal_strlit("\"name\"");
    reveal_strlit("\"permission_level\"");
    reveal_strlit("\"bypasses_player_limit\"");
    reveal_strlit("true");
    reveal_strlit("false");
    let s = enc_op_entry(e) + rest;
    let tail1 = "\",\"name\":"@.skip(1) + enc_jstr(e.name) + ",\"permission_level\":"@
        + dec_digits(e.permission_level as nat) + ",\"bypasses_player_limit\":"@ + enc_jbool(
        e.bypasses_player_limit,
    ) + "}"@ + rest;
    let v0 = seq!['"'] + uuid_chars(e.uuid) + seq!['"'] + tail1;
    assert(s =~= seq!['{'] + ("\"uuid\""@ + seq![':'] + v0));
    assert(s[0] == '{');
    assert(skip_ws(s) == s);
    lemma_expect_lit(seq!['{'], "\"uuid\""@ + seq![':'] + v0);
    lemma_after_key("\"uuid\""@, v0);
    lemma_uuid_chars_clean(e.uuid);
    lemma_esc_clean(uuid_chars(e.uuid));
    let r0 = tail1;
    assert(v0 =~= enc_jstr(uuid_chars(e.uuid)) + r0);
    lemma_parse_jstr_roundtrip(uuid_chars(e.uuid), r0);
    lemma_uuid_roundtrip(e.uuid);
    // ,"name": value
    let v1 = enc_jstr(e.name) + (",\"permission_level\":"@ + dec_digits(e.permission_level as nat)
        + ",\"bypasses_player_limit\":"@ + enc_jbool(e.bypasses_player_limit) + "}"@ + rest);
    assert(r0 =~= seq![','] + ("\"name\""@ + seq![':'] + v1));
    lemma_after_comma("\"name\""@ + seq![':'] + v1);
    lemma_after_key("\"name\""@, v1);
    let r1 = ",\"permission_level\":"@ + dec_digits(e.permission_level as nat)
        + ",\"bypasses_player_limit\":"@ + enc_jbool(e.bypasses_player_limit) + "}"@ + rest;
    assert(v1 =~= enc_jstr(e.name) + r1);
    lemma_parse_jstr_roundtrip(e.name, r1);
    // ,"permission_level": value
    let v2 = dec_digits(e.permission_level as nat) + (",\"bypasses_player_limit\":"@ + enc_jbool(
        e.bypasses_player_limit,
    ) + "}"@ + rest);
    assert(r1 =~= seq![','] + ("\"permission_level\""@ + seq![':'] + v2));
    lemma_after_comma("\"permission_level\""@ + seq![':'] + v2);
    lemma_dec_digits_are_digits(e.permission_level as nat);
    lemma_digit_shape(dec_digits(e.permission_level as nat)[0]);
    lemma_after_key("\"permission_level\""@, v2);
    let r2 = ",\"bypasses_player_limit\":"@ + enc_jbool(e.bypasses_player_limit) + "}"@ + rest;
    assert(v2 =~= dec_digits(e.permission_level as nat) + r2);
    assert(r2[0] == ',');
    lemma_parse_nat_roundtrip(e.permission_level as nat, r2);
    // ,"bypasses_player_limit": value
    let v3 = enc_jbool(e.bypasses_player_limit) + ("}"@ + rest);
    assert(r2 =~= seq![','] + ("\"bypasses_player_limit\""@ + seq![':'] + v3));
    lemma_after_comma("\"bypasses_player_limit\""@ + seq![':'] + v3);
    lemma_after_key("\"bypasses_player_limit\""@, v3);
    let r3 = "}"@ + rest;
    assert(v3 =~= enc_jbool(e.bypasses_player_limit) + r3);
    lemma_parse_jbool_roundtrip(e.bypasses_player_limit, r3);
    assert(r3 =~= seq!['}'] + rest);
    assert(r3[0] == '}');
    assert(skip_ws(r3) == r3);
    lemma_expect_lit(seq!['}'], rest);
}

/// The later entries of a banned-IP document, each after a comma.
pub open spec fn enc_tail_ip(vs: Seq<IpEntryView>) -> Seq<char>
    decreases vs.len(),
{
    if vs.len() == 0 {
        Seq::empty()
    } else {
        enc_tail_ip(vs.drop_last()) + seq![','] + enc_ip_entry(vs.last())
    }
}

/// A whole banned-IP document: the entries as a JSON array.
pub open spec fn enc_ip_doc(vs: Seq<IpEntryView>) -> Seq<char> {
    seq!['['] + (if vs.len() == 0 {
        Seq::<char>::empty()
    } else {
        enc_ip_entry(vs[0]) + enc_tail_ip(vs.drop_first())
    }) + seq![']']
}

/// Reads the remainder of an array: either its end, or a comma and one
/// more entry.
pub open spec fn parse_ip_items(s: Seq<char>) -> Option<(Seq<IpEntryView>, Seq<char>)>
    decreases s.len(),
{
    let s0 = skip_ws(s);
    if s0.len() > 0 && s0[0] == ']' {
        Some((Seq::empty(), s0.drop_first()))
    } else if s0.len() > 0 && s0[0] == ',' {
        match parse_ip_entry(s0.drop_first()) {
            None => None,
            Some((e, r)) => if r.len() < s.len() {
                match parse_ip_items(r) {
                    None => None,
                    Some((es, rr)) => Some((seq![e] + es, rr)),
                }
            } else {
                None
            },
        }
    } else {
        None
    }
}

/// Reads a whole banned-IP document; nothing but whitespace may follow it.
pub open spec fn parse_ip_doc(s: Seq<char>) -> Option<Seq<IpEntryView>> {
    match expect_lit(skip_ws(s), seq!['[']) {
        None => None,
        Some(s0) => {
            let s1 = skip_ws(s0);
            if s1.len() > 0 && s1[0] == ']' {
                if skip_ws(s1.drop_first()).len() == 0 {
                    Some(Seq::empty())
                } else {
                    None
                }
            } else {
                match parse_ip_entry(s0) {
                    None => None,
                    Some((e, r)) => match parse_ip_items(r) {
                        None => None,
                        Some((es, rr)) => if skip_ws(rr).len() == 0 {
                            Some(seq![e] + es)
                        } else {
                            None
                        },
                    },
                }
            }
        },
    }
}

/// Law: the later entries split off their first comma-led entry.
pub proof fn lemma_enc_tail_ip_front(vs: Seq<IpEntryView>)
    requires
        vs.len() > 0,
    ensures
        enc_tail_ip(vs) == seq![','] + enc_ip_entry(vs[0]) + enc_tail_ip(vs.drop_first()),
    decreases vs.len(),
{
    if vs.len() == 1 {
        assert(vs.drop_last() =~= Seq::<IpEntryView>::empty());
        assert(vs.drop_first() =~= Seq::<IpEntryView>::empty());
        assert(enc_tail_ip(vs) =~= seq![','] + enc_ip_entry(vs[0]) + enc_tail_ip(vs.drop_first()));
    } else {
        lemma_enc_tail_ip_front(vs.drop_last());
        assert(vs.drop_last()[0] == vs[0]);
        assert(vs.drop_last().drop_first() =~= vs.drop_first().drop_last());
        assert(vs.drop_first().last() == vs.last());
        assert((seq![','] + enc_ip_entry(vs[0]) + enc_tail_ip(vs.drop_first().drop_last())) + seq![',']
            + enc_ip_entry(vs.last()) =~= seq![','] + enc_ip_entry(vs[0]) + (enc_tail_ip(
            vs.drop_first().drop_last(),
        ) + seq![','] + enc_ip_entry(vs.last())));
    }
}

/// Law: written later entries read back before the closing bracket.
#[verifier::rlimit(100)]
#[verifier::spinoff_prover]
pub proof fn lemma_parse_ip_items_roundtrip(vs: Seq<IpEntryView>, rest: Seq<char>)
    ensures
        parse_ip_items(enc_tail_ip(vs) + seq![']'] + rest) == Some((vs, rest)),
    decreases vs.len(),
{
    if vs.len() == 0 {
        let s = enc_tail_ip(vs) + seq![']'] + rest;
        assert(s =~= seq![']'] + rest);
        assert(s[0] == ']');
        assert(skip_ws(s) == s);
        assert(s.drop_first() =~= rest);
        assert(Seq::<IpEntryView>::empty() =~= vs);
    } else {
        lemma_enc_tail_ip_front(vs);
        let inner = enc_tail_ip(vs.drop_first()) + seq![']'] + rest;
        let s = enc_tail_ip(vs) + seq![']'] + rest;
        assert(s =~= seq![','] + (enc_ip_entry(vs[0]) + inner));
        assert(s[0] == ',');
        assert(skip_ws(s) == s);
        assert(s.drop_first() =~= enc_ip_entry(vs[0]) + inner);
        lemma_parse_ip_entry_roundtrip(vs[0], inner);
        lemma_parse_ip_items_roundtrip(vs.drop_first(), rest);
        assert(inner.len() < s.len());
        assert(seq![vs[0]] + vs.drop_first() =~= vs);
    }
}

/// Law (round trip): a banned-IP document written from any entries parses back
/// to the same entries in the same order.
#[verifier::rlimit(100)]
#[verifier::spinoff_prover]
pub proof fn lemma_ip_list_roundtrip(vs: Seq<IpEntryView>)
    ensures
        parse_ip_doc(enc_ip_doc(vs)) == Some(vs),
{
    let s = enc_ip_doc(vs);
    assert(s[0] == '[');
    assert(skip_ws(s) == s);
    if vs.len() == 0 {
        assert(s =~= seq!['['] + (seq![']'] + Seq::<char>::empty()));
        lemma_expect_lit(seq!['['], seq![']'] + Seq::<char>::empty());
        let s0 = seq![']'] + Seq::<char>::empty();
        assert(s0[0] == ']');
        assert(skip_ws(s0) == s0);
        assert(s0.drop_first() =~= Seq::<char>::empty());
        assert(skip_ws(Seq::<char>::empty()).len() == 0);
        assert(Seq::<IpEntryView>::empty() =~= vs);
    } else {
        let body = enc_ip_entry(vs[0]) + (enc_tail_ip(vs.drop_first()) + seq![']']
            + Seq::<char>::empty());
        assert(s =~= seq!['['] + body);
        lemma_expect_lit(seq!['['], body);
        lemma_parse_ip_entry_roundtrip(vs[0], enc_tail_ip(vs.drop_first()) + seq![']']
            + Seq::<char>::empty());
        assert(body[0] == '{') by {
            reveal_strlit("{\"ip\":\"");
        };
        assert(skip_ws(body) == body);
        lemma_parse_ip_items_roundtrip(vs.drop_first(), Seq::empty());
        assert(skip_ws(Seq::<char>::empty()).len() == 0);
        assert(seq![vs[0]] + vs.drop_first() =~= vs);
    }
}

/// The later entries of a banned-player document, each after a comma.
pub open spec fn enc_tail_player(vs: Seq<PlayerEntryView>) -> Seq<char>
    decreases vs.len(),
{
    if vs.len() == 0 {
        Seq::empty()
    } else {
        enc_tail_player(vs.drop_last()) + seq![','] + enc_player_entry(vs.last())
    }
}

/// A whole banned-player document: the entries as a JSON array.
pub open spec fn enc_player_doc(vs: Seq<PlayerEntryView>) -> Seq<char> {
    seq!['['] + (if vs.len() == 0 {
        Seq::<char>::empty()
    } else {
        enc_player_entry(vs[0]) + enc_tail_player(vs.drop_first())
    }) + seq![']']
}

/// Reads the remainder of an array: either its end, or a comma and one
/// more entry.
pub open spec fn parse_player_items(s: Seq<char>) -> Option<(Seq<PlayerEntryView>, Seq<char>)>
    decreases s.len(),
{
    let s0 = skip_ws(s);
    if s0.len() > 0 && s0[0] == ']' {
        Some((Seq::empty(), s0.drop_first()))
    } else if s0.len() > 0 && s0[0] == ',' {
        match parse_player_entry(s0.drop_first()) {
            None => None,
            Some((e, r)) => if r.len() < s.len() {
                match parse_player_items(r) {
                    None => None,
                    Some((es, rr)) => Some((seq![e] + es, rr)),
                }
            } else {
                None
            },
        }
    } else {
        None
    }
}

/// Reads a whole banned-player document; nothing but whitespace may follow it.
pub open spec fn parse_player_doc(s: Seq<char>) -> Option<Seq<PlayerEntryView>> {
    match expect_lit(skip_ws(s), seq!['[']) {
        None => None,
        Some(s0) => {
            let s1 = skip_ws(s0);
            if s1.len() > 0 && s1[0] == ']' {
                if skip_ws(s1.drop_first()).len() == 0 {
                    Some(Seq::empty())
                } else {
                    None
                }
            } else {
                match parse_player_entry(s0) {
                    None => None,
                    Some((e, r)) => match parse_player_items(r) {
                        None => None,
                        Some((es, rr)) => if skip_ws(rr).len() == 0 {
                            Some(seq![e] + es)
                        } else {
                            None
                        },
                    },
                }
            }
        },
    }
}

/// Law: the later entries split off their first comma-led entry.
pub proof fn lemma_enc_tail_player_front(vs: Seq<PlayerEntryView>)
    requires
        vs.len() > 0,
    ensures
        enc_tail_player(vs) == seq![','] + enc_player_entry(vs[0]) + enc_tail_player(vs.drop_first()),
    decreases vs.len(),
{
    if vs.len() == 1 {
        assert(vs.drop_last() =~= Seq::<PlayerEntryView>::empty());
        assert(vs.drop_first() =~= Seq::<PlayerEntryView>::empty());
        assert(enc_tail_player(vs) =~= seq![','] + enc_player_entry(vs[0]) + enc_tail_player(vs.drop_first()));
    } else {
        lemma_enc_tail_player_front(vs.drop_last());
        assert(vs.drop_last()[0] == vs[0]);
        assert(vs.drop_last().drop_first() =~= vs.drop_first().drop_last());
        assert(vs.drop_first().last() == vs.last());
        assert((seq![','] + enc_player_entry(vs[0]) + enc_tail_player(vs.drop_first().drop_last())) + seq![',']
            + enc_player_entry(vs.last()) =~= seq![','] + enc_player_entry(vs[0]) + (enc_tail_player(
            vs.drop_first().drop_last(),
        ) + seq![','] + enc_player_entry(vs.last())));
    }
}

/// Law: written later entries read back before the closing bracket.
#[verifier::rlimit(100)]
#[verifier::spinoff_prover]
pub proof fn lemma_parse_player_items_roundtrip(vs: Seq<PlayerEntryView>, rest: Seq<char>)
    ensures
        parse_player_items(enc_tail_player(vs) + seq![']'] + rest) == Some((vs, rest)),
    decreases vs.len(),
{
    if vs.len() == 0 {
        let s = enc_tail_player(vs) + seq![']'] + rest;
        assert(s =~= seq![']'] + rest);
        assert(s[0] == ']');
        assert(skip_ws(s) == s);
        assert(s.drop_first() =~= rest);
        assert(Seq::<PlayerEntryView>::empty() =~= vs);
    } else {
        lemma_enc_tail_player_front(vs);
        let inner = enc_tail_player(vs.drop_first()) + seq![']'] + rest;
        let s = enc_tail_player(vs) + seq![']'] + rest;
        assert(s =~= seq![','] + (enc_player_entry(vs[0]) + inner));
        assert(s[0] == ',');
        assert(skip_ws(s) == s);
        assert(s.drop_first() =~= enc_player_entry(vs[0]) + inner);
        lemma_parse_player_entry_roundtrip(vs[0], inner);
        lemma_parse_player_items_roundtrip(vs.drop_first(), rest);
        assert(inner.len() < s.len());
        assert(seq![vs[0]] + vs.drop_first() =~= vs);
    }
}

/// Law (round trip): a banned-player document written from any entries parses back
/// to the same entries in the same order.
#[verifier::rlimit(100)]
#[verifier::spinoff_prover]
pub proof fn lemma_player_list_roundtrip(vs: Seq<PlayerEntryView>)
    ensures
        parse_player_doc(enc_player_doc(vs)) == Some(vs),
{
    let s = enc_player_doc(vs);
    assert(s[0] == '[');
    assert(skip_ws(s) == s);
    if vs.len() == 0 {
        assert(s =~= seq!['['] + (seq![']'] + Seq::<char>::empty()));
        lemma_expect_lit(seq!['['], seq![']'] + Seq::<char>::empty());
        let s0 = seq![']'] + Seq::<char>::empty();
        assert(s0[0] == ']');
        assert(skip_ws(s0) == s0);
        assert(s0.drop_first() =~= Seq::<char>::empty());
        assert(skip_ws(Seq::<char>::empty()).len() == 0);
        assert(Seq::<PlayerEntryView>::empty() =~= vs);
    } else {
        let body = enc_player_entry(vs[0]) + (enc_tail_player(vs.drop_first()) + seq![']']
            + Seq::<char>::empty());
        assert(s =~= seq!['['] + body);
        lemma_expect_lit(seq!['['], body);
        lemma_parse_player_entry_roundtrip(vs[0], enc_tail_player(vs.drop_first()) + seq![']']
            + Seq::<char>::empty());
        assert(body[0] == '{') by {
            reveal_strlit("{\"uuid\":\"");
        };
        assert(skip_ws(body) == body);
        lemma_parse_player_items_roundtrip(vs.drop_first(), Seq::empty());
        assert(skip_ws(Seq::<char>::empty()).len() == 0);
        assert(seq![vs[0]] + vs.drop_first() =~= vs);
    }
}

/// The later entries of a operator document, each after a comma.
pub open spec fn enc_tail_op(vs: Seq<OpView>) -> Seq<char>
    decreases vs.len(),
{
    if vs.len() == 0 {
        Seq::empty()
    } else {
        enc_tail_op(vs.drop_last()) + seq![','] + enc_op_entry(vs.last())
    }
}

/// A whole operator document: the entries as a JSON array.
pub open spec fn enc_op_doc(vs: Seq<OpView>) -> Seq<char> {
    seq!['['] + (if vs.len() == 0 {
        Seq::<char>::empty()
    } else {
        enc_op_entry(vs[0]) + enc_tail_op(vs.drop_first())
    }) + seq![']']
}

/// Reads the remainder of an array: either its end, or a comma and one
/// more entry.
pub open spec fn parse_op_items(s: Seq<char>) -> Option<(Seq<OpView>, Seq<char>)>
    decreases s.len(),
{
    let s0 = skip_ws(s);
    if s0.len() > 0 && s0[0] == ']' {
        Some((Seq::empty(), s0.drop_first()))
    } else if s0.len() > 0 && s0[0] == ',' {
        match parse_op_entry(s0.drop_first()) {
            None => None,
            Some((e, r)) => if r.len() < s.len() {
                match parse_op_items(r) {
                    None => None,
                    Some((es, rr)) => Some((seq![e] + es, rr)),
                }
            } else {
                None
            },
        }
    } else {
        None
    }
}

/// Reads a whole operator document; nothing but whitespace may follow it.
pub open spec fn parse_op_doc(s: Seq<char>) -> Option<Seq<OpView>> {
    match expect_lit(skip_ws(s), seq!['[']) {
        None => None,
        Some(s0) => {
            let s1 = skip_ws(s0);
            if s1.len() > 0 && s1[0] == ']' {
                if skip_ws(s1.drop_first()).len() == 0 {
                    Some(Seq::empty())
                } else {
                    None
                }
            } else {
                match parse_op_entry(s0) {
                    None => None,
                    Some((e, r)) => match parse_op_items(r) {
                        None => None,
                        Some((es, rr)) => if skip_ws(rr).len() == 0 {
                            Some(seq![e] + es)
                        } else {
                            None
                        },
                    },
                }
            }
        },
    }
}

/// Law: the later entries split off their first comma-led entry.
pub proof fn lemma_enc_tail_op_front(vs: Seq<OpView>)
    requires
        vs.len() > 0,
    ensures
        enc_tail_op(vs) == seq![','] + enc_op_entry(vs[0]) + enc_tail_op(vs.drop_first()),
    decreases vs.len(),
{
    if vs.len() == 1 {
        assert(vs.drop_last() =~= Seq::<OpView>::empty());
        assert(vs.drop_first() =~= Seq::<OpView>::empty());
        assert(enc_tail_op(vs) =~= seq![','] + enc_op_entry(vs[0]) + enc_tail_op(vs.drop_first()));
    } else {
        lemma_enc_tail_op_front(vs.drop_last());
        assert(vs.drop_last()[0] == vs[0]);
        assert(vs.drop_last().drop_first() =~= vs.drop_first().drop_last());
        assert(vs.drop_first().last() == vs.last());
        assert((seq![','] + enc_op_entry(vs[0]) + enc_tail_op(vs.drop_first().drop_last())) + seq![',']
            + enc_op_entry(vs.last()) =~= seq![','] + enc_op_entry(vs[0]) + (enc_tail_op(
            vs.drop_first().drop_last(),
        ) + seq![','] + enc_op_entry(vs.last())));
    }
}

/// Law: written later entries read back before the closing bracket.
#[verifier::rlimit(100)]
#[verifier::spinoff_prover]
pub proof fn lemma_parse_op_items_roundtrip(vs: Seq<OpView>, rest: Seq<char>)
    ensures
        parse_op_items(enc_tail_op(vs) + seq![']'] + rest) == Some((vs, rest)),
    decreases vs.len(),
{
    if vs.len() == 0 {
        let s = enc_tail_op(vs) + seq![']'] + rest;
        assert(s =~= seq![']'] + rest);
        assert(s[0] == ']');
        assert(skip_ws(s) == s);
        assert(s.drop_first() =~= rest);
        assert(Seq::<OpView>::empty() =~= vs);
    } else {
        lemma_enc_tail_op_front(vs);
        let inner = enc_tail_op(vs.drop_first()) + seq![']'] + rest;
        let s = enc_tail_op(vs) + seq![']'] + rest;
        assert(s =~= seq![','] + (enc_op_entry(vs[0]) + inner));
        assert(s[0] == ',');
        assert(skip_ws(s) == s);
        assert(s.drop_first() =~= enc_op_entry(vs[0]) + inner);
        lemma_parse_op_entry_roundtrip(vs[0], inner);
        lemma_parse_op_items_roundtrip(vs.drop_first(), rest);
        assert(inner.len() < s.len());
        assert(seq![vs[0]] + vs.drop_first() =~= vs);
    }
}

/// Law (round trip): a operator document written from any entries parses back
/// to the same entries in the same order.
#[verifier::rlimit(100)]
#[verifier::spinoff_prover]
pub proof fn lemma_op_list_roundtrip(vs: Seq<OpView>)
    ensures
        parse_op_doc(enc_op_doc(vs)) == Some(vs),
{
    let s = enc_op_doc(vs);
    assert(s[0] == '[');
    assert(skip_ws(s) == s);
    if vs.len() == 0 {
        assert(s =~= seq!['['] + (seq![']'] + Seq::<char>::empty()));
        lemma_expect_lit(seq!['['], seq![']'] + Seq::<char>::empty());
        let s0 = seq![']'] + Seq::<char>::empty();
        assert(s0[0] == ']');
        assert(skip_ws(s0) == s0);
        assert(s0.drop_first() =~= Seq::<char>::empty());
        assert(skip_ws(Seq::<char>::empty()).len() == 0);
        assert(Seq::<OpView>::empty() =~= vs);
    } else {
        let body = enc_op_entry(vs[0]) + (enc_tail_op(vs.drop_first()) + seq![']']
            + Seq::<char>::empty());
        assert(s =~= seq!['['] + body);
        lemma_expect_lit(seq!['['], body);
        lemma_parse_op_entry_roundtrip(vs[0], enc_tail_op(vs.drop_first()) + seq![']']
            + Seq::<char>::empty());
        assert(body[0] == '{') by {
            reveal_strlit("{\"uuid\":\"");
        };
        assert(skip_ws(body) == body);
        lemma_parse_op_items_roundtrip(vs.drop_first(), Seq::empty());
        assert(skip_ws(Seq::<char>::empty()).len() == 0);
        assert(seq![vs[0]] + vs.drop_first() =~= vs);
    }
}

// ---------------------------------------------------------------------------
// Writing documents
// ---------------------------------------------------------------------------

/// The one-character string for a hex digit value.
fn hex_str(d: u128) -> (r: &'static str)
    requires
        d < 16,
    ensures
        r@ == seq![hex_char_of(d as int)],
{
    if d < 10 {
        digit_str(d)
    } else {
        proof {
            reveal_strlit("a");
            reveal_strlit("b");
            reveal_strlit("c");
            reveal_strlit("d");
            reveal_strlit("e");
            reveal_strlit("f");
        }
        let r = if d == 10 {
            "a"
        } else if d == 11 {
            "b"
        } else if d == 12 {
            "c"
        } else if d == 13 {
            "d"
        } else if d == 14 {
            "e"
        } else {
            "f"
        };
        proof {
            assert(r@ =~= seq![hex_char_of(d as int)]);
        }
        r
    }
}

/// Appends the hex numeral of `n` in exactly `w` digits.
fn push_hex_fixed(out: &mut String, n: u128, w: u32)
    ensures
        final(out)@ == old(out)@ + hex_fixed(n as nat, w as nat),
    decreases w,
{
    if w == 0 {
        proof {
            assert(old(out)@ + hex_fixed(n as nat, 0) =~= old(out)@);
        }
    } else {
        push_hex_fixed(out, n / 16, w - 1);
        out.append(hex_str(n % 16));
        proof {
            assert((n / 16) as nat == (n as nat) / 16);
            assert((n % 16) as nat == (n as nat) % 16);
            assert((old(out)@ + hex_fixed((n as nat) / 16, (w - 1) as nat)) + seq![
                hex_char_of(((n as nat) % 16) as int),
            ] =~= old(out)@ + hex_fixed(n as nat, w as nat));
        }
    }
}

/// Appends the canonical hyphenated form of an id.
fn push_uuid(out: &mut String, u: u128)
    ensures
        final(out)@ == old(out)@ + uuid_chars(u),
{
    let mut hx = String::new();
    push_hex_fixed(&mut hx, u, 32);
    proof {
        assert(hx@ == hex_fixed(u as nat, 32));
        lemma_hex_fixed_are_hex(u as nat, 32);
    }
    out.append(hx.as_str().substring_char(0, 8));
    crate::text::push_char(out, '-');
    out.append(hx.as_str().substring_char(8, 12));
    crate::text::push_char(out, '-');
    out.append(hx.as_str().substring_char(12, 16));
    crate::text::push_char(out, '-');
    out.append(hx.as_str().substring_char(16, 20));
    crate::text::push_char(out, '-');
    out.append(hx.as_str().substring_char(20, 32));
    proof {
        let h = hex_fixed(u as nat, 32);
        assert(out@ =~= old(out)@ + (h.subrange(0, 8) + seq!['-'] + h.subrange(8, 12) + seq!['-']
            + h.subrange(12, 16) + seq!['-'] + h.subrange(16, 20) + seq!['-'] + h.subrange(
            20,
            32,
        )));
    }
}

/// Appends the textual form of an address.
fn push_ip(out: &mut String, ip: &IpAddress)
    ensures
        final(out)@ == old(out)@ + ip_chars(*ip),
{
    match ip {
        IpAddress::V4(v) => {
            let v = *v;
            push_digits(out, (v >> 24) as u128);
            crate::text::push_char(out, '.');
            push_digits(out, ((v >> 16) & 0xff) as u128);
            crate::text::push_char(out, '.');
            push_digits(out, ((v >> 8) & 0xff) as u128);
            crate::text::push_char(out, '.');
            push_digits(out, (v & 0xff) as u128);
            proof {
                assert(out@ =~= old(out)@ + ip_chars(*ip));
            }
        },
        IpAddress::V6(v) => {
            let v = *v;
            let mut hx = String::new();
            push_hex_fixed(&mut hx, v, 32);
            proof {
                assert(hx@ == hex_fixed(v as nat, 32));
                lemma_hex_fixed_are_hex(v as nat, 32);
            }
            out.append(hx.as_str().substring_char(0, 4));
            crate::text::push_char(out, ':');
            out.append(hx.as_str().substring_char(4, 8));
            crate::text::push_char(out, ':');
            out.append(hx.as_str().substring_char(8, 12));
            crate::text::push_char(out, ':');
            out.append(hx.as_str().substring_char(12, 16));
            crate::text::push_char(out, ':');
            out.append(hx.as_str().substring_char(16, 20));
            crate::text::push_char(out, ':');
            out.append(hx.as_str().substring_char(20, 24));
            crate::text::push_char(out, ':');
            out.append(hx.as_str().substring_char(24, 28));
            crate::text::push_char(out, ':');
            out.append(hx.as_str().substring_char(28, 32));
            proof {
                assert(out@ =~= old(out)@ + ip_chars(*ip));
            }
        },
    }
}

/// Appends a quoted string, escaping quotes and backslashes.
fn push_jstr(out: &mut String, t: &str)
    ensures
        final(out)@ == old(out)@ + enc_jstr(t@),
{
    crate::text::push_char(out, '"');
    let n = t.unicode_len();
    let mut i: usize = 0;
    proof {
        assert(esc(t@.take(0)) =~= Seq::<char>::empty());
        assert(out@ =~= old(out)@ + seq!['"'] + esc(t@.take(0)));
    }
    while i < n
        invariant
            n == t@.len(),
            i <= n,
            out@ == old(out)@ + seq!['"'] + esc(t@.take(i as int)),
        decreases n - i,
    {
        let c = t.get_char(i);
        if c == '"' || c == '\\' {
            crate::text::push_char(out, '\\');
            crate::text::push_char(out, c);
        } else {
            crate::text::push_char(out, c);
        }
        proof {
            assert(t@.take(i as int + 1).drop_last() =~= t@.take(i as int));
            assert(t@.take(i as int + 1).last() == t@[i as int]);
            assert(out@ =~= old(out)@ + seq!['"'] + esc(t@.take(i as int + 1)));
        }
        i = i + 1;
    }
    crate::text::push_char(out, '"');
    proof {
        assert(t@.take(i as int) =~= t@);
        assert(out@ =~= old(out)@ + enc_jstr(t@));
    }
}

/// Appends an optional text value.
fn push_opt_jstr(out: &mut String, o: &Option<String>)
    ensures
        final(out)@ == old(out)@ + enc_opt_jstr(opt_text_view(*o)),
{
    proof {
        reveal_strlit("null");
    }
    match o {
        None => {
            out.append("null");
        },
        Some(t) => {
            push_jstr(out, t.as_str());
        },
    }
}

/// Appends a moment as a JSON integer.
fn push_ji64(out: &mut String, x: i64)
    ensures
        final(out)@ == old(out)@ + enc_ji64(x),
{
    if x >= 0 {
        push_digits(out, x as u128);
        proof {
            assert((x as u128) as nat == x as nat);
        }
    } else {
        crate::text::push_char(out, '-');
        let m: u128 = if x == i64::MIN {
            0x8000000000000000
        } else {
            (-x) as u128
        };
        proof {
            assert(m as nat == (-(x as int)) as nat);
        }
        push_digits(out, m);
        proof {
            assert(out@ =~= old(out)@ + enc_ji64(x));
        }
    }
}

/// Appends an optional moment.
fn push_opt_ji64(out: &mut String, o: &Option<i64>)
    ensures
        final(out)@ == old(out)@ + enc_opt_ji64(*o),
{
    proof {
        reveal_strlit("null");
    }
    match o {
        None => {
            out.append("null");
        },
        Some(x) => {
            push_ji64(out, *x);
        },
    }
}

/// Appends a flag.
fn push_jbool(out: &mut String, b: bool)
    ensures
        final(out)@ == old(out)@ + enc_jbool(b),
{
    proof {
        reveal_strlit("true");
        reveal_strlit("false");
    }
    if b {
        out.append("true");
    } else {
        out.append("false");
    }
}

/// Appends one banned-IP entry object.
fn push_ip_entry(out: &mut String, e: &BannedIpEntry)
    ensures
        final(out)@ == old(out)@ + enc_ip_entry(ip_entry_view(*e)),
{
    out.append("{\"ip\":\"");
    push_ip(out, &e.ip);
    out.append("\",\"reason\":");
    push_opt_jstr(out, &e.reason);
    out.append(",\"expires\":");
    push_opt_ji64(out, &e.expires);
    out.append(",\"source\":");
    push_jstr(out, e.source.as_str());
    out.append("}");
    proof {
        assert(out@ =~= old(out)@ + enc_ip_entry(ip_entry_view(*e)));
    }
}

/// Appends one banned-player entry object.
fn push_player_entry(out: &mut String, e: &BannedPlayerEntry)
    ensures
        final(out)@ == old(out)@ + enc_player_entry(player_entry_view(*e)),
{
    out.append("{\"uuid\":\"");
    push_uuid(out, e.uuid);
    out.append("\",\"name\":");
    push_jstr(out, e.name.as_str());
    out.append(",\"reason\":");
    push_opt_jstr(out, &e.reason);
    out.append(",\"expires\":");
    push_opt_ji64(out, &e.expires);
    out.append(",\"source\":");
    push_jstr(out, e.source.as_str());
    out.append("}");
    proof {
        assert(out@ =~= old(out)@ + enc_player_entry(player_entry_view(*e)));
    }
}

/// Appends one operator grant object.
fn push_op_entry(out: &mut String, e: &Op)
    ensures
        final(out)@ == old(out)@ + enc_op_entry(op_view(*e)),
{
    out.append("{\"uuid\":\"");
    push_uuid(out, e.uuid);
    out.append("\",\"name\":");
    push_jstr(out, e.name.as_str());
    out.append(",\"permission_level\":");
    push_digits(out, e.permission_level as u128);
    out.append(",\"bypasses_player_limit\":");
    push_jbool(out, e.bypasses_player_limit);
    out.append("}");
    proof {
        assert((e.permission_level as u128) as nat == e.permission_level as nat);
        assert(out@ =~= old(out)@ + enc_op_entry(op_view(*e)));
    }
}

impl BannedIpList {
    /// The persisted form of this list.
    pub fn to_document(&self) -> (r: String)
        ensures
            r@ == enc_ip_doc(self.banned_ips@.map_values(|e: BannedIpEntry| ip_entry_view(e))),
    {
        let ghost views = self.banned_ips@.map_values(|e: BannedIpEntry| ip_entry_view(e));
        let mut out = String::new();
        crate::text::push_char(&mut out, '[');
        let mut i: usize = 0;
        while i < self.banned_ips.len()
            invariant
                views == self.banned_ips@.map_values(|e: BannedIpEntry| ip_entry_view(e)),
                i <= views.len(),
                i == 0 ==> out@ == seq!['['],
                i > 0 ==> out@ == seq!['['] + enc_ip_entry(views[0]) + enc_tail_ip(
                    views.subrange(1, i as int),
                ),
            decreases views.len() - i,
        {
            if i > 0 {
                crate::text::push_char(&mut out, ',');
            }
            push_ip_entry(&mut out, &self.banned_ips[i]);
            proof {
                if i == 0 {
                    assert(enc_tail_ip(views.subrange(1, 1)) =~= Seq::<char>::empty());
                    assert(views.subrange(1, 1).len() == 0);
                    assert(out@ =~= seq!['['] + enc_ip_entry(views[0]) + enc_tail_ip(
                        views.subrange(1, 1),
                    ));
                } else {
                    assert(views.subrange(1, i as int + 1).drop_last() =~= views.subrange(
                        1,
                        i as int,
                    ));
                    assert(views.subrange(1, i as int + 1).last() == views[i as int]);
                    assert(out@ =~= seq!['['] + enc_ip_entry(views[0]) + enc_tail_ip(
                        views.subrange(1, i as int + 1),
                    ));
                }
            }
            i = i + 1;
        }
        crate::text::push_char(&mut out, ']');
        proof {
            if views.len() == 0 {
                assert(out@ =~= enc_ip_doc(views));
            } else {
                assert(views.subrange(1, views.len() as int) =~= views.drop_first());
                assert(out@ =~= enc_ip_doc(views));
            }
        }
        out
    }
}

impl BannedPlayerList {
    /// The persisted form of this list.
    pub fn to_document(&self) -> (r: String)
        ensures
            r@ == enc_player_doc(
                self.banned_players@.map_values(|e: BannedPlayerEntry| player_entry_view(e)),
            ),
    {
        let ghost views = self.banned_players@.map_values(
            |e: BannedPlayerEntry| player_entry_view(e),
        );
        let mut out = String::new();
        crate::text::push_char(&mut out, '[');
        let mut i: usize = 0;
        while i < self.banned_players.len()
            invariant
                views == self.banned_players@.map_values(
                    |e: BannedPlayerEntry| player_entry_view(e),
                ),
                i <= views.len(),
                i == 0 ==> out@ == seq!['['],
                i > 0 ==> out@ == seq!['['] + enc_player_entry(views[0]) + enc_tail_player(
                    views.subrange(1, i as int),
                ),
            decreases views.len() - i,
        {
            if i > 0 {
                crate::text::push_char(&mut out, ',');
            }
            push_player_entry(&mut out, &self.banned_players[i]);
            proof {
                if i == 0 {
                    assert(enc_tail_player(views.subrange(1, 1)) =~= Seq::<char>::empty());
                    assert(views.subrange(1, 1).len() == 0);
                    assert(out@ =~= seq!['['] + enc_player_entry(views[0]) + enc_tail_player(
                        views.subrange(1, 1),
                    ));
                } else {
                    assert(views.subrange(1, i as int + 1).drop_last() =~= views.subrange(
                        1,
                        i as int,
                    ));
                    assert(views.subrange(1, i as int + 1).last() == views[i as int]);
                    assert(out@ =~= seq!['['] + enc_player_entry(views[0]) + enc_tail_player(
                        views.subrange(1, i as int + 1),
                    ));
                }
            }
            i = i + 1;
        }
        crate::text::push_char(&mut out, ']');
        proof {
            if views.len() == 0 {
                assert(out@ =~= enc_player_doc(views));
            } else {
                assert(views.subrange(1, views.len() as int) =~= views.drop_first());
                assert(out@ =~= enc_player_doc(views));
            }
        }
        out
    }
}

impl OperatorConfig {
    /// The persisted form of this list.
    pub fn to_document(&self) -> (r: String)
        ensures
            r@ == enc_op_doc(self.ops@.map_values(|e: Op| op_view(e))),
    {
        let ghost views = self.ops@.map_values(|e: Op| op_view(e));
        let mut out = String::new();
        crate::text::push_char(&mut out, '[');
        let mut i: usize = 0;
        while i < self.ops.len()
            invariant
                views == self.ops@.map_values(|e: Op| op_view(e)),
                i <= views.len(),
                i == 0 ==> out@ == seq!['['],
                i > 0 ==> out@ == seq!['['] + enc_op_entry(views[0]) + enc_tail_op(
                    views.subrange(1, i as int),
                ),
            decreases views.len() - i,
        {
            if i > 0 {
                crate::text::push_char(&mut out, ',');
            }
            push_op_entry(&mut out, &self.ops[i]);
            proof {
                if i == 0 {
                    assert(enc_tail_op(views.subrange(1, 1)) =~= Seq::<char>::empty());
                    assert(views.subrange(1, 1).len() == 0);
                    assert(out@ =~= seq!['['] + enc_op_entry(views[0]) + enc_tail_op(
                        views.subrange(1, 1),
                    ));
                } else {
                    assert(views.subrange(1, i as int + 1).drop_last() =~= views.subrange(
                        1,
                        i as int,
                    ));
                    assert(views.subrange(1, i as int + 1).last() == views[i as int]);
                    assert(out@ =~= seq!['['] + enc_op_entry(views[0]) + enc_tail_op(
                        views.subrange(1, i as int + 1),
                    ));
                }
            }
            i = i + 1;
        }
        crate::text::push_char(&mut out, ']');
        proof {
            if views.len() == 0 {
                assert(out@ =~= enc_op_doc(views));
            } else {
                assert(views.subrange(1, views.len() as int) =~= views.drop_first());
                assert(out@ =~= enc_op_doc(views));
            }
        }
        out
    }
}

// ---------------------------------------------------------------------------
// Reading documents back
// ---------------------------------------------------------------------------

/// Whether the character is whitespace between tokens.
fn is_ws_char(c: char) -> (r: bool)
    ensures
        r == is_ws(c),
{
    c == ' ' || c == '\n' || c == '\r' || c == '\t'
}

/// Advances past leading whitespace.
fn skip_ws_at(s: &str, len: usize, i: usize) -> (j: usize)
    requires
        len == s@.len(),
        i <= len,
    ensures
        i <= j <= len,
        s@.skip(j as int) == skip_ws(s@.skip(i as int)),
{
    let mut j = i;
    while j < len && is_ws_char(s.get_char(j))
        invariant
            len == s@.len(),
            i <= j <= len,
            skip_ws(s@.skip(i as int)) == skip_ws(s@.skip(j as int)),
        decreases len - j,
    {
        proof {
            assert(s@.skip(j as int)[0] == s@[j as int]);
            assert(s@.skip(j as int).drop_first() =~= s@.skip(j as int + 1));
        }
        j = j + 1;
    }
    proof {
        if j < len {
            assert(s@.skip(j as int)[0] == s@[j as int]);
            assert(skip_ws(s@.skip(j as int)) == s@.skip(j as int));
        } else {
            assert(s@.skip(j as int).len() == 0);
            assert(skip_ws(s@.skip(j as int)) == s@.skip(j as int));
        }
    }
    j
}

/// Expects the exact token `lit` at `i`.
fn expect_str_at(s: &str, len: usize, i: usize, lit: &str) -> (r: Option<usize>)
    requires
        len == s@.len(),
        i <= len,
    ensures
        (match r {
            Some(j) => i <= j <= len && j - i == lit@.len() && expect_lit(s@.skip(i as int), lit@)
                == Some(s@.skip(j as int)),
            None => expect_lit(s@.skip(i as int), lit@) is None,
        }),
{
    let n = lit.unicode_len();
    if n > len - i {
        proof {
            assert(s@.skip(i as int).len() < lit@.len());
        }
        return None;
    }
    let mut k: usize = 0;
    while k < n
        invariant
            len == s@.len(),
            n == lit@.len(),
            i + n <= len,
            k <= n,
            forall|p: int| 0 <= p < k ==> s@.skip(i as int)[p] == lit@[p],
        decreases n - k,
    {
        if s.get_char(i + k) != lit.get_char(k) {
            proof {
                assert(s@.skip(i as int)[k as int] == s@[i as int + k]);
                assert(s@.skip(i as int).take(n as int)[k as int] == s@.skip(i as int)[k as int]);
            }
            return None;
        }
        proof {
            assert(s@.skip(i as int)[k as int] == s@[i as int + k]);
        }
        k = k + 1;
    }
    proof {
        assert(s@.skip(i as int).take(n as int) =~= lit@);
        assert(s@.skip(i as int).skip(n as int) =~= s@.skip(i as int + n));
    }
    Some(i + n)
}

/// Reads a quoted string starting at `i`.
fn parse_jstr_at(s: &str, len: usize, i: usize) -> (r: Option<(String, usize)>)
    requires
        len == s@.len(),
        i <= len,
    ensures
        (match r {
            Some(p) => i < p.1 <= len && parse_jstr(s@.skip(i as int)) == Some(
                (p.0@, s@.skip(p.1 as int)),
            ),
            None => parse_jstr(s@.skip(i as int)) is None,
        }),
{
    if i == len {
        return None;
    }
    if s.get_char(i) != '"' {
        proof {
            assert(s@.skip(i as int)[0] == s@[i as int]);
        }
        return None;
    }
    proof {
        assert(s@.skip(i as int)[0] == s@[i as int]);
        assert(s@.skip(i as int).drop_first() =~= s@.skip(i as int + 1));
    }
    let ghost start = i + 1;
    let mut acc = String::new();
    let mut cur: usize = i + 1;
    while cur < len
        invariant
            len == s@.len(),
            start == i + 1,
            i + 1 <= cur <= len,
            parse_jstr(s@.skip(i as int)) == (match jstr_body(s@.skip(cur as int)) {
                Some(p) => Some((acc@ + p.0, p.1)),
                None => None::<(Seq<char>, Seq<char>)>,
            }),
        decreases len - cur,
    {
        let c = s.get_char(cur);
        proof {
            assert(s@.skip(cur as int)[0] == s@[cur as int]);
        }
        if c == '"' {
            proof {
                assert(s@.skip(cur as int).drop_first() =~= s@.skip(cur as int + 1));
                assert(acc@ + Seq::<char>::empty() =~= acc@);
            }
            return Some((acc, cur + 1));
        } else if c == '\\' {
            if cur + 1 < len {
                let c2 = s.get_char(cur + 1);
                proof {
                    assert(s@.skip(cur as int)[1] == s@[cur as int + 1]);
                }
                if c2 == '"' || c2 == '\\' {
                    let ghost acc0 = acc@;
                    crate::text::push_char(&mut acc, c2);
                    proof {
                        assert(s@.skip(cur as int).skip(2) =~= s@.skip(cur as int + 2));
                        if jstr_body(s@.skip(cur as int + 2)) is Some {
                            let p = jstr_body(s@.skip(cur as int + 2)).unwrap();
                            assert(acc0 + (seq![c2] + p.0) =~= acc@ + p.0);
                        }
                    }
                    cur = cur + 2;
                } else {
                    return None;
                }
            } else {
                return None;
            }
        } else {
            let ghost acc0 = acc@;
            crate::text::push_char(&mut acc, c);
            proof {
                assert(s@.skip(cur as int).drop_first() =~= s@.skip(cur as int + 1));
                if jstr_body(s@.skip(cur as int + 1)) is Some {
                    let p = jstr_body(s@.skip(cur as int + 1)).unwrap();
                    assert(acc0 + (seq![c] + p.0) =~= acc@ + p.0);
                }
            }
            cur = cur + 1;
        }
    }
    proof {
        assert(s@.skip(cur as int).len() == 0);
    }
    None
}

/// The value of a hex digit character, if it is one.
fn hex_val_exec(c: char) -> (r: Option<u8>)
    ensures
        (match r {
            Some(d) => char_hex(c) == Some(d as int),
            None => char_hex(c) is None,
        }),
{
    if c == 'a' || c == 'A' {
        Some(10)
    } else if c == 'b' || c == 'B' {
        Some(11)
    } else if c == 'c' || c == 'C' {
        Some(12)
    } else if c == 'd' || c == 'D' {
        Some(13)
    } else if c == 'e' || c == 'E' {
        Some(14)
    } else if c == 'f' || c == 'F' {
        Some(15)
    } else {
        digit_val_exec(c)
    }
}

/// Law: sixteen to a higher power is no smaller.
proof fn lemma_pow16_mono(a: nat, b: nat)
    requires
        a <= b,
    ensures
        pow16(a) <= pow16(b),
    decreases b,
{
    if a < b {
        lemma_pow16_mono(a, (b - 1) as nat);
        assert(pow16(b) == 16 * pow16((b - 1) as nat));
        assert(pow16((b - 1) as nat) >= 1) by {
            lemma_pow16_pos((b - 1) as nat);
        };
    }
}

/// Law: a power of sixteen is positive.
proof fn lemma_pow16_pos(w: nat)
    ensures
        pow16(w) >= 1,
    decreases w,
{
    if w > 0 {
        lemma_pow16_pos((w - 1) as nat);
    }
}

/// Where the `m`-th hex digit of a hyphenated id stands in its text.
spec fn uuid_pos(m: int) -> int {
    if m < 8 {
        m
    } else if m < 12 {
        m + 1
    } else if m < 16 {
        m + 2
    } else if m < 20 {
        m + 3
    } else {
        m + 4
    }
}

/// The id a hyphenated hex text denotes, if it is one.
fn uuid_from_text(t: &str) -> (r: Option<u128>)
    ensures
        r == uuid_of_chars(t@),
{
    let len = t.unicode_len();
    if len != 36 {
        return None;
    }
    if t.get_char(8) != '-' || t.get_char(13) != '-' || t.get_char(18) != '-' || t.get_char(23)
        != '-' {
        return None;
    }
    let ghost g = t@.subrange(0, 8) + t@.subrange(9, 13) + t@.subrange(14, 18) + t@.subrange(
        19,
        23,
    ) + t@.subrange(24, 36);
    proof {
        assert(g.len() == 32);
        assert forall|m: int| 0 <= m < 32 implies g[m] == t@[uuid_pos(m)] by {}
        assert(pow16(32) == 0x100000000000000000000000000000000) by {
            reveal_with_fuel(pow16, 33);
        };
    }
    let mut acc: u128 = 0;
    let mut m: usize = 0;
    while m < 32
        invariant
            t@.len() == 36,
            m <= 32,
            g == t@.subrange(0, 8) + t@.subrange(9, 13) + t@.subrange(14, 18) + t@.subrange(19, 23)
                + t@.subrange(24, 36),
            pow16(32) == 0x100000000000000000000000000000000,
            (acc as nat) == hex_val(g.take(m as int)),
            (acc as nat) < pow16(m as nat),
            forall|p: int| 0 <= p < m ==> char_hex(#[trigger] g[p]) is Some,
        decreases 32 - m,
    {
        let k = if m < 8 {
            m
        } else if m < 12 {
            m + 1
        } else if m < 16 {
            m + 2
        } else if m < 20 {
            m + 3
        } else {
            m + 4
        };
        let c = t.get_char(k);
        proof {
            assert(g[m as int] == t@[uuid_pos(m as int)]);
            assert(k as int == uuid_pos(m as int));
        }
        match hex_val_exec(c) {
            None => {
                proof {
                    assert(char_hex(g[m as int]) is None);
                }
                return None;
            },
            Some(d) => {
                proof {
                    assert(pow16(m as nat + 1) == 16 * pow16(m as nat));
                    lemma_pow16_mono(m as nat + 1, 32);
                    assert((acc as nat) * 16 + (d as nat) < pow16(m as nat + 1));
                    assert(g.take(m as int + 1).drop_last() =~= g.take(m as int));
                    assert(g.take(m as int + 1).last() == g[m as int]);
                }
                acc = acc * 16 + (d as u128);
            },
        }
        m = m + 1;
    }
    proof {
        assert(g.take(32) =~= g);
        assert(uuid_of_chars(t@) == Some((hex_val(g) as u128)));
    }
    Some(acc)
}

/// Where the `m`-th hex digit of a grouped v6 address stands in its text.
spec fn v6_pos(m: int) -> int {
    m + m / 4
}

/// The address a text denotes, if it is one.
fn ip_from_text(t: &str) -> (r: Option<IpAddress>)
    ensures
        r == ip_of_chars(t@),
{
    let len = t.unicode_len();
    if len == 39 {
        if t.get_char(4) != ':' || t.get_char(9) != ':' || t.get_char(14) != ':' || t.get_char(19)
            != ':' || t.get_char(24) != ':' || t.get_char(29) != ':' || t.get_char(34) != ':' {
            return None;
        }
        let ghost g = t@.subrange(0, 4) + t@.subrange(5, 9) + t@.subrange(10, 14) + t@.subrange(
            15,
            19,
        ) + t@.subrange(20, 24) + t@.subrange(25, 29) + t@.subrange(30, 34) + t@.subrange(35, 39);
        proof {
            assert(g.len() == 32);
            assert forall|m: int| 0 <= m < 32 implies g[m] == t@[v6_pos(m)] by {}
            assert(pow16(32) == 0x100000000000000000000000000000000) by {
                reveal_with_fuel(pow16, 33);
            };
        }
        let mut acc: u128 = 0;
        let mut m: usize = 0;
        while m < 32
            invariant
                t@.len() == 39,
                m <= 32,
                g == t@.subrange(0, 4) + t@.subrange(5, 9) + t@.subrange(10, 14) + t@.subrange(
                    15,
                    19,
                ) + t@.subrange(20, 24) + t@.subrange(25, 29) + t@.subrange(30, 34) + t@.subrange(
                    35,
                    39,
                ),
                pow16(32) == 0x100000000000000000000000000000000,
                (acc as nat) == hex_val(g.take(m as int)),
                (acc as nat) < pow16(m as nat),
                forall|p: int| 0 <= p < m ==> char_hex(#[trigger] g[p]) is Some,
            decreases 32 - m,
        {
            let k = m + m / 4;
            let c = t.get_char(k);
            proof {
                assert(g[m as int] == t@[v6_pos(m as int)]);
                assert(k as int == v6_pos(m as int));
            }
            match hex_val_exec(c) {
                None => {
                    proof {
                        assert(char_hex(g[m as int]) is None);
                    }
                    return None;
                },
                Some(d) => {
                    proof {
                        assert(pow16(m as nat + 1) == 16 * pow16(m as nat));
                        lemma_pow16_mono(m as nat + 1, 32);
                        assert((acc as nat) * 16 + (d as nat) < pow16(m as nat + 1));
                        assert(g.take(m as int + 1).drop_last() =~= g.take(m as int));
                        assert(g.take(m as int + 1).last() == g[m as int]);
                    }
                    acc = acc * 16 + (d as u128);
                },
            }
            m = m + 1;
        }
        proof {
            assert(g.take(32) =~= g);
            assert(ip_of_chars(t@) == Some(IpAddress::V6((hex_val(g) as u128))));
        }
        Some(IpAddress::V6(acc))
    } else {
        proof {
            assert(t@.skip(0) =~= t@);
        }
        let a = match scan_nat_at(t, len, 0) {
            None => {
                return None;
            },
            Some(p) => p,
        };
        if a.0 > 255 {
            return None;
        }
        let j1 = match expect_str_at(t, len, a.1, ".") {
            None => {
                proof {
                    reveal_strlit(".");
                    assert("."@ =~= seq!['.']);
                }
                return None;
            },
            Some(j) => j,
        };
        proof {
            reveal_strlit(".");
            assert("."@ =~= seq!['.']);
        }
        let b = match scan_nat_at(t, len, j1) {
            None => {
                return None;
            },
            Some(p) => p,
        };
        if b.0 > 255 {
            return None;
        }
        let j2 = match expect_str_at(t, len, b.1, ".") {
            None => {
                return None;
            },
            Some(j) => j,
        };
        let c = match scan_nat_at(t, len, j2) {
            None => {
                return None;
            },
            Some(p) => p,
        };
        if c.0 > 255 {
            return None;
        }
        let j3 = match expect_str_at(t, len, c.1, ".") {
            None => {
                return None;
            },
            Some(j) => j,
        };
        let d = match scan_nat_at(t, len, j3) {
            None => {
                return None;
            },
            Some(p) => p,
        };
        if d.0 > 255 {
            return None;
        }
        if d.1 != len {
            proof {
                assert(t@.skip(d.1 as int).len() > 0);
            }
            return None;
        }
        proof {
            assert(t@.skip(0) =~= t@);
            assert(t@.skip(d.1 as int).len() == 0);
        }
        Some(
            IpAddress::V4(
                (a.0 as u32) * 0x1000000 + (b.0 as u32) * 0x10000 + (c.0 as u32) * 0x100 + (
                d.0 as u32),
            ),
        )
    }
}

/// Reads one moment starting at `i`.
fn parse_ji64_at(s: &str, len: usize, i: usize) -> (r: Option<(i64, usize)>)
    requires
        len == s@.len(),
        i <= len,
    ensures
        (match r {
            Some(p) => i < p.1 <= len && parse_ji64(s@.skip(i as int)) == Some(
                (p.0, s@.skip(p.1 as int)),
            ),
            None => parse_ji64(s@.skip(i as int)) is None,
        }),
{
    if i < len && s.get_char(i) == '-' {
        proof {
            assert(s@.skip(i as int)[0] == s@[i as int]);
            assert(s@.skip(i as int).drop_first() =~= s@.skip(i as int + 1));
        }
        match scan_nat_at(s, len, i + 1) {
            None => None,
            Some((n, j)) => {
                if n <= 0x8000000000000000 {
                    let x: i64 = if n == 0x8000000000000000 {
                        i64::MIN
                    } else {
                        -(n as i64)
                    };
                    proof {
                        assert(x == (-((n as nat) as int)) as i64);
                    }
                    Some((x, j))
                } else {
                    None
                }
            },
        }
    } else {
        proof {
            if i < len {
                assert(s@.skip(i as int)[0] == s@[i as int]);
            } else {
                assert(s@.skip(i as int).len() == 0);
            }
        }
        match scan_nat_at(s, len, i) {
            None => None,
            Some((n, j)) => {
                if n <= 0x7fffffffffffffff {
                    Some((n as i64, j))
                } else {
                    None
                }
            },
        }
    }
}

/// Reads one optional text value starting at `i`.
fn parse_opt_jstr_at(s: &str, len: usize, i: usize) -> (r: Option<(Option<String>, usize)>)
    requires
        len == s@.len(),
        i <= len,
    ensures
        (match r {
            Some(p) => i < p.1 <= len && parse_opt_jstr(s@.skip(i as int)) == Some(
                (opt_text_view(p.0), s@.skip(p.1 as int)),
            ),
            None => parse_opt_jstr(s@.skip(i as int)) is None,
        }),
{
    proof {
        reveal_strlit("null");
        if i < len {
            assert(s@.skip(i as int)[0] == s@[i as int]);
        } else {
            assert(s@.skip(i as int).len() == 0);
        }
    }
    if i < len && s.get_char(i) == 'n' {
        match expect_str_at(s, len, i, "null") {
            None => None,
            Some(j) => Some((None, j)),
        }
    } else {
        match parse_jstr_at(s, len, i) {
            None => None,
            Some((t, j)) => Some((Some(t), j)),
        }
    }
}

/// Reads one optional moment starting at `i`.
fn parse_opt_ji64_at(s: &str, len: usize, i: usize) -> (r: Option<(Option<i64>, usize)>)
    requires
        len == s@.len(),
        i <= len,
    ensures
        (match r {
            Some(p) => i < p.1 <= len && parse_opt_ji64(s@.skip(i as int)) == Some(
                (p.0, s@.skip(p.1 as int)),
            ),
            None => parse_opt_ji64(s@.skip(i as int)) is None,
        }),
{
    proof {
        reveal_strlit("null");
        if i < len {
            assert(s@.skip(i as int)[0] == s@[i as int]);
        } else {
            assert(s@.skip(i as int).len() == 0);
        }
    }
    if i < len && s.get_char(i) == 'n' {
        match expect_str_at(s, len, i, "null") {
            None => None,
            Some(j) => Some((None, j)),
        }
    } else {
        match parse_ji64_at(s, len, i) {
            None => None,
            Some((x, j)) => Some((Some(x), j)),
        }
    }
}

/// Reads one flag starting at `i`.
fn parse_jbool_at(s: &str, len: usize, i: usize) -> (r: Option<(bool, usize)>)
    requires
        len == s@.len(),
        i <= len,
    ensures
        (match r {
            Some(p) => i < p.1 <= len && parse_jbool(s@.skip(i as int)) == Some(
                (p.0, s@.skip(p.1 as int)),
            ),
            None => parse_jbool(s@.skip(i as int)) is None,
        }),
{
    proof {
        reveal_strlit("true");
        reveal_strlit("false");
        if i < len {
            assert(s@.skip(i as int)[0] == s@[i as int]);
        } else {
            assert(s@.skip(i as int).len() == 0);
        }
    }
    if i < len && s.get_char(i) == 't' {
        match expect_str_at(s, len, i, "true") {
            None => None,
            Some(j) => Some((true, j)),
        }
    } else {
        match expect_str_at(s, len, i, "false") {
            None => None,
            Some(j) => Some((false, j)),
        }
    }
}

/// Positions the input at a field's value.
fn after_key_at(s: &str, len: usize, i: usize, key: &str) -> (r: Option<usize>)
    requires
        len == s@.len(),
        i <= len,
    ensures
        (match r {
            Some(j) => i <= j <= len && after_key(s@.skip(i as int), key@) == Some(
                s@.skip(j as int),
            ),
            None => after_key(s@.skip(i as int), key@) is None,
        }),
{
    proof {
        reveal_strlit(":");
    }
    let w1 = skip_ws_at(s, len, i);
    match expect_str_at(s, len, w1, key) {
        None => None,
        Some(j2) => {
            let w2 = skip_ws_at(s, len, j2);
            match expect_str_at(s, len, w2, ":") {
                None => {
                    proof {
                        assert(":"@ =~= seq![':']);
                    }
                    None
                },
                Some(j3) => {
                    proof {
                        assert(":"@ =~= seq![':']);
                    }
                    let w3 = skip_ws_at(s, len, j3);
                    Some(w3)
                },
            }
        },
    }
}

/// Expects a comma, after optional whitespace.
fn after_comma_at(s: &str, len: usize, i: usize) -> (r: Option<usize>)
    requires
        len == s@.len(),
        i <= len,
    ensures
        (match r {
            Some(j) => i <= j <= len && after_comma(s@.skip(i as int)) == Some(s@.skip(j as int)),
            None => after_comma(s@.skip(i as int)) is None,
        }),
{
    proof {
        reveal_strlit(",");
    }
    let w = skip_ws_at(s, len, i);
    match expect_str_at(s, len, w, ",") {
        None => {
            proof {
                assert(","@ =~= seq![',']);
            }
            None
        },
        Some(j) => {
            proof {
                assert(","@ =~= seq![',']);
            }
            Some(j)
        },
    }
}

/// Reads one banned-IP entry object starting at `i`.
fn parse_ip_entry_at(s: &str, len: usize, i: usize) -> (r: Option<(BannedIpEntry, usize)>)
    requires
        len == s@.len(),
        i <= len,
    ensures
        (match r {
            Some(p) => i < p.1 <= len && parse_ip_entry(s@.skip(i as int)) == Some(
                (ip_entry_view(p.0), s@.skip(p.1 as int)),
            ),
            None => parse_ip_entry(s@.skip(i as int)) is None,
        }),
{
    proof {
        reveal_strlit("{");
        reveal_strlit("}");
        assert("{"@ =~= seq!['{']);
        assert("}"@ =~= seq!['}']);
    }
    let w0 = skip_ws_at(s, len, i);
    let s0 = match expect_str_at(s, len, w0, "{") {
        None => {
            return None;
        },
        Some(j) => j,
    };
    let v0 = match after_key_at(s, len, s0, "\"ip\"") {
        None => {
            return None;
        },
        Some(j) => j,
    };
    let (ipc, r0) = match parse_jstr_at(s, len, v0) {
        None => {
            return None;
        },
        Some(p) => p,
    };
    let ip = match ip_from_text(ipc.as_str()) {
        None => {
            return None;
        },
        Some(x) => x,
    };
    let c1 = match after_comma_at(s, len, r0) {
        None => {
            return None;
        },
        Some(j) => j,
    };
    let v1 = match after_key_at(s, len, c1, "\"reason\"") {
        None => {
            return None;
        },
        Some(j) => j,
    };
    let (reason, r1) = match parse_opt_jstr_at(s, len, v1) {
        None => {
            return None;
        },
        Some(p) => p,
    };
    let c2 = match after_comma_at(s, len, r1) {
        None => {
            return None;
        },
        Some(j) => j,
    };
    let v2 = match after_key_at(s, len, c2, "\"expires\"") {
        None => {
            return None;
        },
        Some(j) => j,
    };
    let (expires, r2) = match parse_opt_ji64_at(s, len, v2) {
        None => {
            return None;
        },
        Some(p) => p,
    };
    let c3 = match after_comma_at(s, len, r2) {
        None => {
            return None;
        },
        Some(j) => j,
    };
    let v3 = match after_key_at(s, len, c3, "\"source\"") {
        None => {
            return None;
        },
        Some(j) => j,
    };
    let (source, r3) = match parse_jstr_at(s, len, v3) {
        None => {
            return None;
        },
        Some(p) => p,
    };
    let w4 = skip_ws_at(s, len, r3);
    match expect_str_at(s, len, w4, "}") {
        None => None,
        Some(j) => Some((BannedIpEntry { ip, reason, expires, source }, j)),
    }
}

/// Reads one banned-player entry object starting at `i`.
fn parse_player_entry_at(s: &str, len: usize, i: usize) -> (r: Option<(BannedPlayerEntry, usize)>)
    requires
        len == s@.len(),
        i <= len,
    ensures
        (match r {
            Some(p) => i < p.1 <= len && parse_player_entry(s@.skip(i as int)) == Some(
                (player_entry_view(p.0), s@.skip(p.1 as int)),
            ),
            None => parse_player_entry(s@.skip(i as int)) is None,
        }),
{
    proof {
        reveal_strlit("{");
        reveal_strlit("}");
        assert("{"@ =~= seq!['{']);
        assert("}"@ =~= seq!['}']);
    }
    let w0 = skip_ws_at(s, len, i);
    let s0 = match expect_str_at(s, len, w0, "{") {
        None => {
            return None;
        },
        Some(j) => j,
    };
    let v0 = match after_key_at(s, len, s0, "\"uuid\"") {
        None => {
            return None;
        },
        Some(j) => j,
    };
    let (uc, r0) = match parse_jstr_at(s, len, v0) {
        None => {
            return None;
        },
        Some(p) => p,
    };
    let uuid = match uuid_from_text(uc.as_str()) {
        None => {
            return None;
        },
        Some(x) => x,
    };
    let c1 = match after_comma_at(s, len, r0) {
        None => {
            return None;
        },
        Some(j) => j,
    };
    let v1 = match after_key_at(s, len, c1, "\"name\"") {
        None => {
            return None;
        },
        Some(j) => j,
    };
    let (name, r1) = match parse_jstr_at(s, len, v1) {
        None => {
            return None;
        },
        Some(p) => p,
    };
    let c2 = match after_comma_at(s, len, r1) {
        None => {
            return None;
        },
        Some(j) => j,
    };
    let v2 = match after_key_at(s, len, c2, "\"reason\"") {
        None => {
            return None;
        },
        Some(j) => j,
    };
    let (reason, r2) = match parse_opt_jstr_at(s, len, v2) {
        None => {
            return None;
        },
        Some(p) => p,
    };
    let c3 = match after_comma_at(s, len, r2) {
        None => {
            return None;
        },
        Some(j) => j,
    };
    let v3 = match after_key_at(s, len, c3, "\"expires\"") {
        None => {
            return None;
        },
        Some(j) => j,
    };
    let (expires, r3) = match parse_opt_ji64_at(s, len, v3) {
        None => {
            return None;
        },
        Some(p) => p,
    };
    let c4 = match after_comma_at(s, len, r3) {
        None => {
            return None;
        },
        Some(j) => j,
    };
    let v4 = match after_key_at(s, len, c4, "\"source\"") {
        None => {
            return None;
        },
        Some(j) => j,
    };
    let (source, r4) = match parse_jstr_at(s, len, v4) {
        None => {
            return None;
        },
        Some(p) => p,
    };
    let w5 = skip_ws_at(s, len, r4);
    match expect_str_at(s, len, w5, "}") {
        None => None,
        Some(j) => Some((BannedPlayerEntry { uuid, name, reason, expires, source }, j)),
    }
}

/// Reads one operator grant object starting at `i`.
fn parse_op_entry_at(s: &str, len: usize, i: usize) -> (r: Option<(Op, usize)>)
    requires
        len == s@.len(),
        i <= len,
    ensures
        (match r {
            Some(p) => i < p.1 <= len && parse_op_entry(s@.skip(i as int)) == Some(
                (op_view(p.0), s@.skip(p.1 as int)),
            ),
            None => parse_op_entry(s@.skip(i as int)) is None,
        }),
{
    proof {
        reveal_strlit("{");
        reveal_strlit("}");
        assert("{"@ =~= seq!['{']);
        assert("}"@ =~= seq!['}']);
    }
    let w0 = skip_ws_at(s, len, i);
    let s0 = match expect_str_at(s, len, w0, "{") {
        None => {
            return None;
        },
        Some(j) => j,
    };
    let v0 = match after_key_at(s, len, s0, "\"uuid\"") {
        None => {
            return None;
        },
        Some(j) => j,
    };
    let (uc, r0) = match parse_jstr_at(s, len, v0) {
        None => {
            return None;
        },
        Some(p) => p,
    };
    let uuid = match uuid_from_text(uc.as_str()) {
        None => {
            return None;
        },
        Some(x) => x,
    };
    let c1 = match after_comma_at(s, len, r0) {
        None => {
            return None;
        },
        Some(j) => j,
    };
    let v1 = match after_key_at(s, len, c1, "\"name\"") {
        None => {
            return None;
        },
        Some(j) => j,
    };
    let (name, r1) = match parse_jstr_at(s, len, v1) {
        None => {
            return None;
        },
        Some(p) => p,
    };
    let c2 = match after_comma_at(s, len, r1) {
        None => {
            return None;
        },
        Some(j) => j,
    };
    let v2 = match after_key_at(s, len, c2, "\"permission_level\"") {
        None => {
            return None;
        },
        Some(j) => j,
    };
    let (level, r2) = match scan_nat_at(s, len, v2) {
        None => {
            return None;
        },
        Some(p) => p,
    };
    if level > 255 {
        return None;
    }
    let c3 = match after_comma_at(s, len, r2) {
        None => {
            return None;
        },
        Some(j) => j,
    };
    let v3 = match after_key_at(s, len, c3, "\"bypasses_player_limit\"") {
        None => {
            return None;
        },
        Some(j) => j,
    };
    let (bypass, r3) = match parse_jbool_at(s, len, v3) {
        None => {
            return None;
        },
        Some(p) => p,
    };
    let w4 = skip_ws_at(s, len, r3);
    match expect_str_at(s, len, w4, "}") {
        None => None,
        Some(j) => Some(
            (
                Op {
                    uuid,
                    name,
                    permission_level: level as u8,
                    bypasses_player_limit: bypass,
                },
                j,
            ),
        ),
    }
}

impl BannedIpList {
    /// Reads a whole banned-IP document back; a malformed document is a
    /// persistence failure, surfaced, not recovered.
    #[verifier::rlimit(100)]
    #[verifier::spinoff_prover]
    pub fn from_document(doc: &str) -> (r: Result<BannedIpList, ConnectionError>)
        ensures
            (match r {
                Ok(l) => parse_ip_doc(doc@) == Some(
                    l.banned_ips@.map_values(|e: BannedIpEntry| ip_entry_view(e)),
                ) && l.needs_save == false,
                Err(e) => parse_ip_doc(doc@) is None && e == ConnectionError::PersistenceFailure,
            }),
    {
        proof {
            reveal_strlit("[");
            reveal_strlit("]");
            assert("["@ =~= seq!['[']);
            assert("]"@ =~= seq![']']);
            assert(doc@.skip(0) =~= doc@);
        }
        let len = doc.unicode_len();
        let w0 = skip_ws_at(doc, len, 0);
        let s0 = match expect_str_at(doc, len, w0, "[") {
            None => {
                return Err(ConnectionError::PersistenceFailure);
            },
            Some(j) => j,
        };
        let s1 = skip_ws_at(doc, len, s0);
        if s1 < len && doc.get_char(s1) == ']' {
            proof {
                assert(doc@.skip(s1 as int)[0] == doc@[s1 as int]);
                assert(doc@.skip(s1 as int).drop_first() =~= doc@.skip(s1 as int + 1));
            }
            let s2 = skip_ws_at(doc, len, s1 + 1);
            if s2 == len {
                proof {
                    assert(doc@.skip(s2 as int).len() == 0);
                    assert(Seq::<BannedIpEntry>::empty().map_values(|e: BannedIpEntry| ip_entry_view(e))
                        =~= Seq::<IpEntryView>::empty());
                }
                return Ok(BannedIpList { banned_ips: Vec::new(), needs_save: false });
            } else {
                proof {
                    assert(doc@.skip(s2 as int).len() > 0);
                }
                return Err(ConnectionError::PersistenceFailure);
            }
        }
        proof {
            if s1 < len {
                assert(doc@.skip(s1 as int)[0] == doc@[s1 as int]);
            } else {
                assert(doc@.skip(s1 as int).len() == 0);
            }
        }
        let (e0, p0) = match parse_ip_entry_at(doc, len, s0) {
            None => {
                return Err(ConnectionError::PersistenceFailure);
            },
            Some(p) => p,
        };
        let mut entries: Vec<BannedIpEntry> = Vec::new();
        entries.push(e0);
        let mut pos: usize = p0;
        proof {
            assert(entries@.map_values(|e: BannedIpEntry| ip_entry_view(e)) =~= seq![
                ip_entry_view(entries@[0]),
            ]);
        }
        while pos < len
            invariant
                len == doc@.len(),
                pos <= len,
                entries@.len() >= 1,
                parse_ip_doc(doc@) == (match parse_ip_items(doc@.skip(pos as int)) {
                    Some(p) => if skip_ws(p.1).len() == 0 {
                        Some(
                            seq![ip_entry_view(entries@[0])] + entries@.map_values(
                                |e: BannedIpEntry| ip_entry_view(e),
                            ).drop_first() + p.0,
                        )
                    } else {
                        None::<Seq<IpEntryView>>
                    },
                    None => None::<Seq<IpEntryView>>,
                }),
            decreases len - pos,
        {
            let q = skip_ws_at(doc, len, pos);
            if q < len && doc.get_char(q) == ']' {
                proof {
                    assert(doc@.skip(q as int)[0] == doc@[q as int]);
                    assert(doc@.skip(q as int).drop_first() =~= doc@.skip(q as int + 1));
                }
                let s2 = skip_ws_at(doc, len, q + 1);
                if s2 == len {
                    proof {
                        assert(doc@.skip(s2 as int).len() == 0);
                        let views = entries@.map_values(|e: BannedIpEntry| ip_entry_view(e));
                        assert(seq![ip_entry_view(entries@[0])] + views.drop_first()
                            + Seq::<IpEntryView>::empty() =~= views);
                    }
                    return Ok(BannedIpList { banned_ips: entries, needs_save: false });
                } else {
                    proof {
                        assert(doc@.skip(s2 as int).len() > 0);
                    }
                    return Err(ConnectionError::PersistenceFailure);
                }
            }
            proof {
                if q < len {
                    assert(doc@.skip(q as int)[0] == doc@[q as int]);
                } else {
                    assert(doc@.skip(q as int).len() == 0);
                }
            }
            if q < len && doc.get_char(q) == ',' {
                proof {
                    assert(doc@.skip(q as int).drop_first() =~= doc@.skip(q as int + 1));
                }
                let (e, p2) = match parse_ip_entry_at(doc, len, q + 1) {
                    None => {
                        return Err(ConnectionError::PersistenceFailure);
                    },
                    Some(p) => p,
                };
                let ghost views0 = entries@.map_values(|e: BannedIpEntry| ip_entry_view(e));
                entries.push(e);
                proof {
                    assert(doc@.skip(p2 as int).len() < doc@.skip(pos as int).len());
                    let views1 = entries@.map_values(|x: BannedIpEntry| ip_entry_view(x));
                    assert(views1 =~= views0.push(ip_entry_view(e)));
                    assert(views1.drop_first() =~= views0.drop_first().push(ip_entry_view(e)));
                    if parse_ip_items(doc@.skip(p2 as int)) is Some {
                        let pp = parse_ip_items(doc@.skip(p2 as int)).unwrap();
                        assert(seq![ip_entry_view(entries@[0])] + views0.drop_first() + (seq![
                            ip_entry_view(e),
                        ] + pp.0) =~= seq![ip_entry_view(entries@[0])] + views1.drop_first() + pp.0);
                    }
                }
                pos = p2;
            } else {
                return Err(ConnectionError::PersistenceFailure);
            }
        }
        proof {
            assert(doc@.skip(pos as int).len() == 0);
        }
        Err(ConnectionError::PersistenceFailure)
    }

    /// Builds the list from the persisted document, or an empty list when
    /// none exists.
    pub fn load(doc: Option<&str>) -> (r: Result<BannedIpList, ConnectionError>)
        ensures
            (match r {
                Ok(l) => (match doc {
                    None => l.banned_ips@ == Seq::<BannedIpEntry>::empty() && l.needs_save == false,
                    Some(d) => parse_ip_doc(d@) == Some(
                        l.banned_ips@.map_values(|e: BannedIpEntry| ip_entry_view(e)),
                    ) && l.needs_save == false,
                }),
                Err(e) => doc is Some && parse_ip_doc(doc.unwrap()@) is None && e
                    == ConnectionError::PersistenceFailure,
            }),
    {
        match doc {
            None => Ok(BannedIpList::new()),
            Some(d) => BannedIpList::from_document(d),
        }
    }
}

impl BannedPlayerList {
    /// Reads a whole banned-player document back; a malformed document is a
    /// persistence failure, surfaced, not recovered.
    #[verifier::rlimit(100)]
    #[verifier::spinoff_prover]
    pub fn from_document(doc: &str) -> (r: Result<BannedPlayerList, ConnectionError>)
        ensures
            (match r {
                Ok(l) => parse_player_doc(doc@) == Some(
                    l.banned_players@.map_values(|e: BannedPlayerEntry| player_entry_view(e)),
                ) && l.needs_save == false,
                Err(e) => parse_player_doc(doc@) is None && e == ConnectionError::PersistenceFailure,
            }),
    {
        proof {
            reveal_strlit("[");
            reveal_strlit("]");
            assert("["@ =~= seq!['[']);
            assert("]"@ =~= seq![']']);
            assert(doc@.skip(0) =~= doc@);
        }
        let len = doc.unicode_len();
        let w0 = skip_ws_at(doc, len, 0);
        let s0 = match expect_str_at(doc, len, w0, "[") {
            None => {
                return Err(ConnectionError::PersistenceFailure);
            },
            Some(j) => j,
        };
        let s1 = skip_ws_at(doc, len, s0);
        if s1 < len && doc.get_char(s1) == ']' {
            proof {
                assert(doc@.skip(s1 as int)[0] == doc@[s1 as int]);
                assert(doc@.skip(s1 as int).drop_first() =~= doc@.skip(s1 as int + 1));
            }
            let s2 = skip_ws_at(doc, len, s1 + 1);
            if s2 == len {
                proof {
                    assert(doc@.skip(s2 as int).len() == 0);
                    assert(Seq::<BannedPlayerEntry>::empty().map_values(|e: BannedPlayerEntry| player_entry_view(e))
                        =~= Seq::<PlayerEntryView>::empty());
                }
                return Ok(BannedPlayerList { banned_players: Vec::new(), needs_save: false });
            } else {
                proof {
                    assert(doc@.skip(s2 as int).len() > 0);
                }
                return Err(ConnectionError::PersistenceFailure);
            }
        }
        proof {
            if s1 < len {
                assert(doc@.skip(s1 as int)[0] == doc@[s1 as int]);
            } else {
                assert(doc@.skip(s1 as int).len() == 0);
            }
        }
        let (e0, p0) = match parse_player_entry_at(doc, len, s0) {
            None => {
                return Err(ConnectionError::PersistenceFailure);
            },
            Some(p) => p,
        };
        let mut entries: Vec<BannedPlayerEntry> = Vec::new();
        entries.push(e0);
        let mut pos: usize = p0;
        proof {
            assert(entries@.map_values(|e: BannedPlayerEntry| player_entry_view(e)) =~= seq![
                player_entry_view(entries@[0]),
            ]);
        }
        while pos < len
            invariant
                len == doc@.len(),
                pos <= len,
                entries@.len() >= 1,
                parse_player_doc(doc@) == (match parse_player_items(doc@.skip(pos as int)) {
                    Some(p) => if skip_ws(p.1).len() == 0 {
                        Some(
                            seq![player_entry_view(entries@[0])] + entries@.map_values(
                                |e: BannedPlayerEntry| player_entry_view(e),
                            ).drop_first() + p.0,
                        )
                    } else {
                        None::<Seq<PlayerEntryView>>
                    },
                    None => None::<Seq<PlayerEntryView>>,
                }),
            decreases len - pos,
        {
            let q = skip_ws_at(doc, len, pos);
            if q < len && doc.get_char(q) == ']' {
                proof {
                    assert(doc@.skip(q as int)[0] == doc@[q as int]);
                    assert(doc@.skip(q as int).drop_first() =~= doc@.skip(q as int + 1));
                }
                let s2 = skip_ws_at(doc, len, q + 1);
                if s2 == len {
                    proof {
                        assert(doc@.skip(s2 as int).len() == 0);
                        let views = entries@.map_values(|e: BannedPlayerEntry| player_entry_view(e));
                        assert(seq![player_entry_view(entries@[0])] + views.drop_first()
                            + Seq::<PlayerEntryView>::empty() =~= views);
                    }
                    return Ok(BannedPlayerList { banned_players: entries, needs_save: false });
                } else {
                    proof {
                        assert(doc@.skip(s2 as int).len() > 0);
                    }
                    return Err(ConnectionError::PersistenceFailure);
                }
            }
            proof {
                if q < len {
                    assert(doc@.skip(q as int)[0] == doc@[q as int]);
                } else {
                    assert(doc@.skip(q as int).len() == 0);
                }
            }
            if q < len && doc.get_char(q) == ',' {
                proof {
                    assert(doc@.skip(q as int).drop_first() =~= doc@.skip(q as int + 1));
                }
                let (e, p2) = match parse_player_entry_at(doc, len, q + 1) {
                    None => {
                        return Err(ConnectionError::PersistenceFailure);
                    },
                    Some(p) => p,
                };
                let ghost views0 = entries@.map_values(|e: BannedPlayerEntry| player_entry_view(e));
                entries.push(e);
                proof {
                    assert(doc@.skip(p2 as int).len() < doc@.skip(pos as int).len());
                    let views1 = entries@.map_values(|x: BannedPlayerEntry| player_entry_view(x));
                    assert(views1 =~= views0.push(player_entry_view(e)));
                    assert(views1.drop_first() =~= views0.drop_first().push(player_entry_view(e)));
                    if parse_player_items(doc@.skip(p2 as int)) is Some {
                        let pp = parse_player_items(doc@.skip(p2 as int)).unwrap();
                        assert(seq![player_entry_view(entries@[0])] + views0.drop_first() + (seq![
                            player_entry_view(e),
                        ] + pp.0) =~= seq![player_entry_view(entries@[0])] + views1.drop_first() + pp.0);
                    }
                }
                pos = p2;
            } else {
                return Err(ConnectionError::PersistenceFailure);
            }
        }
        proof {
            assert(doc@.skip(pos as int).len() == 0);
        }
        Err(ConnectionError::PersistenceFailure)
    }

    /// Builds the list from the persisted document, or an empty list when
    /// none exists.
    pub fn load(doc: Option<&str>) -> (r: Result<BannedPlayerList, ConnectionError>)
        ensures
            (match r {
                Ok(l) => (match doc {
                    None => l.banned_players@ == Seq::<BannedPlayerEntry>::empty() && l.needs_save == false,
                    Some(d) => parse_player_doc(d@) == Some(
                        l.banned_players@.map_values(|e: BannedPlayerEntry| player_entry_view(e)),
                    ) && l.needs_save == false,
                }),
                Err(e) => doc is Some && parse_player_doc(doc.unwrap()@) is None && e
                    == ConnectionError::PersistenceFailure,
            }),
    {
        match doc {
            None => Ok(BannedPlayerList::new()),
            Some(d) => BannedPlayerList::from_document(d),
        }
    }
}

impl OperatorConfig {
    /// Reads a whole operator document back; a malformed document is a
    /// persistence failure, surfaced, not recovered.
    #[verifier::rlimit(100)]
    #[verifier::spinoff_prover]
    pub fn from_document(doc: &str) -> (r: Result<OperatorConfig, ConnectionError>)
        ensures
            (match r {
                Ok(l) => parse_op_doc(doc@) == Some(
                    l.ops@.map_values(|e: Op| op_view(e)),
                ),
                Err(e) => parse_op_doc(doc@) is None && e == ConnectionError::PersistenceFailure,
            }),
    {
        proof {
            reveal_strlit("[");
            reveal_strlit("]");
            assert("["@ =~= seq!['[']);
            assert("]"@ =~= seq![']']);
            assert(doc@.skip(0) =~= doc@);
        }
        let len = doc.unicode_len();
        let w0 = skip_ws_at(doc, len, 0);
        let s0 = match expect_str_at(doc, len, w0, "[") {
            None => {
                return Err(ConnectionError::PersistenceFailure);
            },
            Some(j) => j,
        };
        let s1 = skip_ws_at(doc, len, s0);
        if s1 < len && doc.get_char(s1) == ']' {
            proof {
                assert(doc@.skip(s1 as int)[0] == doc@[s1 as int]);
                assert(doc@.skip(s1 as int).drop_first() =~= doc@.skip(s1 as int + 1));
            }
            let s2 = skip_ws_at(doc, len, s1 + 1);
            if s2 == len {
                proof {
                    assert(doc@.skip(s2 as int).len() == 0);
                    assert(Seq::<Op>::empty().map_values(|e: Op| op_view(e))
                        =~= Seq::<OpView>::empty());
                }
                return Ok(OperatorConfig { ops: Vec::new() });
            } else {
                proof {
                    assert(doc@.skip(s2 as int).len() > 0);
                }
                return Err(ConnectionError::PersistenceFailure);
            }
        }
        proof {
            if s1 < len {
                assert(doc@.skip(s1 as int)[0] == doc@[s1 as int]);
            } else {
                assert(doc@.skip(s1 as int).len() == 0);
            }
        }
        let (e0, p0) = match parse_op_entry_at(doc, len, s0) {
            None => {
                return Err(ConnectionError::PersistenceFailure);
            },
            Some(p) => p,
        };
        let mut entries: Vec<Op> = Vec::new();
        entries.push(e0);
        let mut pos: usize = p0;
        proof {
            assert(entries@.map_values(|e: Op| op_view(e)) =~= seq![
                op_view(entries@[0]),
            ]);
        }
        while pos < len
            invariant
                len == doc@.len(),
                pos <= len,
                entries@.len() >= 1,
                parse_op_doc(doc@) == (match parse_op_items(doc@.skip(pos as int)) {
                    Some(p) => if skip_ws(p.1).len() == 0 {
                        Some(
                            seq![op_view(entries@[0])] + entries@.map_values(
                                |e: Op| op_view(e),
                            ).drop_first() + p.0,
                        )
                    } else {
                        None::<Seq<OpView>>
                    },
                    None => None::<Seq<OpView>>,
                }),
            decreases len - pos,
        {
            let q = skip_ws_at(doc, len, pos);
            if q < len && doc.get_char(q) == ']' {
                proof {
                    assert(doc@.skip(q as int)[0] == doc@[q as int]);
                    assert(doc@.skip(q as int).drop_first() =~= doc@.skip(q as int + 1));
                }
                let s2 = skip_ws_at(doc, len, q + 1);
                if s2 == len {
                    proof {
                        assert(doc@.skip(s2 as int).len() == 0);
                        let views = entries@.map_values(|e: Op| op_view(e));
                        assert(seq![op_view(entries@[0])] + views.drop_first()
                            + Seq::<OpView>::empty() =~= views);
                    }
                    return Ok(OperatorConfig { ops: entries });
                } else {
                    proof {
                        assert(doc@.skip(s2 as int).len() > 0);
                    }
                    return Err(ConnectionError::PersistenceFailure);
                }
            }
            proof {
                if q < len {
                    assert(doc@.skip(q as int)[0] == doc@[q as int]);
                } else {
                    assert(doc@.skip(q as int).len() == 0);
                }
            }
            if q < len && doc.get_char(q) == ',' {
                proof {
                    assert(doc@.skip(q as int).drop_first() =~= doc@.skip(q as int + 1));
                }
                let (e, p2) = match parse_op_entry_at(doc, len, q + 1) {
                    None => {
                        return Err(ConnectionError::PersistenceFailure);
                    },
                    Some(p) => p,
                };
                let ghost views0 = entries@.map_values(|e: Op| op_view(e));
                entries.push(e);
                proof {
                    assert(doc@.skip(p2 as int).len() < doc@.skip(pos as int).len());
                    let views1 = entries@.map_values(|x: Op| op_view(x));
                    assert(views1 =~= views0.push(op_view(e)));
                    assert(views1.drop_first() =~= views0.drop_first().push(op_view(e)));
                    if parse_op_items(doc@.skip(p2 as int)) is Some {
                        let pp = parse_op_items(doc@.skip(p2 as int)).unwrap();
                        assert(seq![op_view(entries@[0])] + views0.drop_first() + (seq![
                            op_view(e),
                        ] + pp.0) =~= seq![op_view(entries@[0])] + views1.drop_first() + pp.0);
                    }
                }
                pos = p2;
            } else {
                return Err(ConnectionError::PersistenceFailure);
            }
        }
        proof {
            assert(doc@.skip(pos as int).len() == 0);
        }
        Err(ConnectionError::PersistenceFailure)
    }

    /// Builds the list from the persisted document, or an empty list when
    /// none exists.
    pub fn load(doc: Option<&str>) -> (r: Result<OperatorConfig, ConnectionError>)
        ensures
            (match r {
                Ok(l) => (match doc {
                    None => l.ops@ == Seq::<Op>::empty(),
                    Some(d) => parse_op_doc(d@) == Some(
                        l.ops@.map_values(|e: Op| op_view(e)),
                    ),
                }),
                Err(e) => doc is Some && parse_op_doc(doc.unwrap()@) is None && e
                    == ConnectionError::PersistenceFailure,
            }),
    {
        match doc {
            None => Ok(OperatorConfig::new()),
            Some(d) => OperatorConfig::from_document(d),
        }
    }
}

} // verus!
