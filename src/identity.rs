//! How a loose player identifier is looked up: by game account id, by game
//! account name, or through the chat account linked to it.
use vstd::prelude::*;

verus! {

/// Where to look up the account that an identifier names.
#[derive(Debug)]
pub enum AccountLookup {
    /// A 32-byte identifier: a game account id, looked up by profile.
    ByUuid(String),
    /// An identifier of at most 16 bytes: a game account name.
    ByName(String),
    /// A chat user id, the mention marks and surrounding blanks taken off:
    /// looked up among the linked accounts.
    ByDiscordId(String),
    /// Nothing that names a player.
    Invalid,
}

/// Whether a character is white space (the Unicode `White_Space` property,
/// as `char::is_whitespace` reads it).
pub open spec fn is_white_space(c: char) -> bool {
    let n = c as u32;
    (0x09 <= n <= 0x0d) || n == 0x20 || n == 0x85 || n == 0xa0 || n == 0x1680 || (0x2000 <= n
        <= 0x200a) || n == 0x2028 || n == 0x2029 || n == 0x202f || n == 0x205f || n == 0x3000
}

/// The text without leading white space.
pub open spec fn trim_start_ws(s: Seq<char>) -> Seq<char>
    decreases s.len(),
{
    if s.len() > 0 && is_white_space(s[0]) {
        trim_start_ws(s.skip(1))
    } else {
        s
    }
}

/// The text without trailing white space.
pub open spec fn trim_end_ws(s: Seq<char>) -> Seq<char>
    decreases s.len(),
{
    if s.len() > 0 && is_white_space(s.last()) {
        trim_end_ws(s.drop_last())
    } else {
        s
    }
}

/// Whether a character marks a chat mention: `@`, `<` or `>`.
pub open spec fn is_mention_mark(c: char) -> bool {
    c == '@' || c == '<' || c == '>'
}

/// The text without its mention marks.
pub open spec fn without_marks(s: Seq<char>) -> Seq<char>
    decreases s.len(),
{
    if s.len() == 0 {
        seq![]
    } else if is_mention_mark(s.last()) {
        without_marks(s.drop_last())
    } else {
        without_marks(s.drop_last()).push(s.last())
    }
}

/// An identifier made clean: mention marks taken out, then white space
/// trimmed off both ends.
pub open spec fn cleaned(s: Seq<char>) -> Seq<char> {
    trim_end_ws(trim_start_ws(without_marks(s)))
}

/// The value of a sequence of decimal digits.
pub open spec fn dec_value(digits: Seq<char>) -> int
    decreases digits.len(),
{
    if digits.len() == 0 {
        0
    } else {
        dec_value(digits.drop_last()) * 10 + (digits.last() as int - '0' as int)
    }
}

/// Whether every character is a decimal digit.
pub open spec fn all_decimal(digits: Seq<char>) -> bool {
    forall|i: int| 0 <= i < digits.len() ==> '0' <= #[trigger] digits[i] <= '9'
}

/// Whether a text reads as a `u64`: an optional `+`, then one or more
/// decimal digits whose value fits.
pub open spec fn reads_as_u64(s: Seq<char>) -> bool {
    let digits = crate::text::unsigned_digits(s);
    digits.len() > 0 && all_decimal(digits) && dec_value(digits) <= u64::MAX
}

/// Where an identifier of `byte_len` bytes is looked up.
pub open spec fn lookup_of(s: Seq<char>, byte_len: nat, r: AccountLookup) -> bool {
    if byte_len == 32 {
        r matches AccountLookup::ByUuid(t) && t@ == s
    } else if byte_len <= 16 {
        r matches AccountLookup::ByName(t) && t@ == s
    } else if reads_as_u64(cleaned(s)) {
        r matches AccountLookup::ByDiscordId(t) && t@ == cleaned(s)
    } else {
        r is Invalid
    }
}

proof fn lemma_dec_value_grows(digits: Seq<char>, n: int)
    requires
        1 <= n <= digits.len(),
        all_decimal(digits),
    ensures
        dec_value(digits.take(n - 1)) <= dec_value(digits.take(n)),
        dec_value(digits.take(n)) <= dec_value(digits),
    decreases digits.len() - n,
{
    assert(digits.take(n).drop_last() =~= digits.take(n - 1));
    lemma_dec_value_nonneg(digits.take(n - 1));
    if n < digits.len() {
        lemma_dec_value_grows(digits, n + 1);
    } else {
        assert(digits.take(n) =~= digits);
    }
}

proof fn lemma_dec_value_nonneg(digits: Seq<char>)
    requires
        all_decimal(digits),
    ensures
        dec_value(digits) >= 0,
    decreases digits.len(),
{
    if digits.len() > 0 {
        lemma_dec_value_nonneg(digits.drop_last());
    }
}

/// A text read as a `u64`, as `str::parse::<u64>` reads it: an optional
/// `+`, then one or more decimal digits whose value fits.
pub fn parse_u64(s: &str) -> (r: Option<u64>)
    ensures
        r.is_some() == reads_as_u64(s@),
        r matches Some(v) ==> v == dec_value(crate::text::unsigned_digits(s@)),
{
    let n = s.unicode_len();
    let mut i: usize = 0;
    if n > 0 && s.get_char(0) == '+' {
        i = 1;
    }
    let ghost digits = crate::text::unsigned_digits(s@);
    let start = i;
    if start == n {
        return None;
    }
    let mut value: u64 = 0;
    while i < n
        invariant
            n == s@.len(),
            start <= i <= n,
            start < n,
            digits == s@.skip(start as int),
            digits == crate::text::unsigned_digits(s@),
            forall|j: int| 0 <= j < i - start ==> '0' <= #[trigger] digits[j] <= '9',
            value == dec_value(digits.take(i - start)),
        decreases n - i,
    {
        let c = s.get_char(i);
        assert(c == digits[i - start]);
        if !('0' <= c && c <= '9') {
            assert(!all_decimal(digits));
            return None;
        }
        let d = (c as u32 - '0' as u32) as u64;
        assert(digits.take(i - start + 1).drop_last() =~= digits.take(i - start));
        assert(digits.take(i - start + 1).last() == c);
        assert(dec_value(digits.take(i - start + 1)) == value * 10 + d);
        if value > (u64::MAX - d) / 10 {
            proof {
                assert(value * 10 + d > u64::MAX) by (nonlinear_arith)
                    requires
                        value > (u64::MAX - d) / 10,
                        d <= 9,
                ;
                assert(!all_decimal(digits) || dec_value(digits) > u64::MAX) by {
                    if all_decimal(digits) {
                        lemma_dec_value_grows(digits, i - start + 1);
                    }
                }
            }
            return None;
        }
        assert(value * 10 + d <= u64::MAX) by (nonlinear_arith)
            requires
                value <= (u64::MAX - d) / 10,
                d <= 9,
        ;
        value = value * 10 + d;
        i += 1;
    }
    assert(digits.take(i - start) =~= digits);
    Some(value)
}

fn is_white_space_char(c: char) -> (r: bool)
    ensures
        r == is_white_space(c),
{
    let n = c as u32;
    (0x09 <= n && n <= 0x0d) || n == 0x20 || n == 0x85 || n == 0xa0 || n == 0x1680 || (0x2000 <= n
        && n <= 0x200a) || n == 0x2028 || n == 0x2029 || n == 0x202f || n == 0x205f || n == 0x3000
}

/// The text without white space at either end, as `str::trim` gives it.
pub fn trim_white_space(s: &str) -> (r: &str)
    ensures
        r@ == trim_end_ws(trim_start_ws(s@)),
{
    let n = s.unicode_len();
    let mut i: usize = 0;
    assert(s@.skip(0) =~= s@);
    while i < n && is_white_space_char(s.get_char(i))
        invariant
            n == s@.len(),
            i <= n,
            trim_start_ws(s@.skip(i as int)) == trim_start_ws(s@),
        decreases n - i,
    {
        assert(s@.skip(i as int).skip(1) =~= s@.skip(i + 1));
        i += 1;
    }
    assert(trim_start_ws(s@.skip(i as int)) == s@.skip(i as int));
    let ghost t = s@.skip(i as int);
    let mut j: usize = n;
    assert(t.take(j - i) =~= t);
    while j > i && is_white_space_char(s.get_char(j - 1))
        invariant
            n == s@.len(),
            i <= j <= n,
            t == s@.skip(i as int),
            trim_end_ws(t.take(j - i)) == trim_end_ws(t),
        decreases j,
    {
        assert(t.take(j - i).drop_last() =~= t.take(j - i - 1));
        assert(t.take(j - i).last() == s@[j - 1]);
        j -= 1;
    }
    assert(trim_end_ws(t.take(j - i)) == t.take(j - i)) by {
        if j > i {
            assert(t.take(j - i).last() == s@[j - 1]);
        }
    }
    assert(t.take(j - i) =~= s@.subrange(i as int, j as int));
    s.substring_char(i, j)
}

/// The text without its mention marks.
pub fn remove_mention_marks(s: &str) -> (r: String)
    ensures
        r@ == without_marks(s@),
{
    let n = s.unicode_len();
    let mut out = String::new();
    let mut i: usize = 0;
    while i < n
        invariant
            n == s@.len(),
            i <= n,
            out@ == without_marks(s@.take(i as int)),
        decreases n - i,
    {
        let c = s.get_char(i);
        assert(s@.take(i + 1).drop_last() =~= s@.take(i as int));
        assert(s@.take(i + 1).last() == c);
        if !(c == '@' || c == '<' || c == '>') {
            let one = s.substring_char(i, i + 1);
            assert(one@ =~= seq![c]);
            out.append(one);
        }
        i += 1;
    }
    assert(s@.take(i as int) =~= s@);
    out
}

/// Decides where an identifier is looked up. An identifier of exactly 32
/// bytes is a game account id and one of at most 16 bytes a game account
/// name, both taken as given; otherwise, made clean, one that reads as a
/// `u64` is a chat user id; anything else names no player.
pub fn account_lookup(identifier: &str) -> (r: AccountLookup)
    ensures
        lookup_of(identifier@, identifier.len() as nat, r),
{
    let len = identifier.len();
    if len == 32 {
        return AccountLookup::ByUuid(identifier.to_owned());
    }
    if len <= 16 {
        return AccountLookup::ByName(identifier.to_owned());
    }
    let unmarked = remove_mention_marks(identifier);
    let clean = trim_white_space(unmarked.as_str());
    if parse_u64(clean).is_some() {
        AccountLookup::ByDiscordId(clean.to_owned())
    } else {
        AccountLookup::Invalid
    }
}

} // verus!
