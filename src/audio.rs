use vstd::prelude::*;

verus! {

/// What std's `DefaultHasher`, created by `DefaultHasher::new`, finishes with after the UTF-8
/// bytes of a string are written to it.
pub uninterp spec fn string_hash_of(s: Seq<char>) -> u64;

/// Relies on std's DefaultHasher: `DefaultHasher::new` starts from fixed keys, so the hash of
/// the bytes written to it depends on those bytes alone.
#[verifier::external_body]
fn hash_str(s: &str) -> (r: u64)
    ensures
        r == string_hash_of(s@),
{
    let mut hasher = std::collections::hash_map::DefaultHasher::new();
    std::hash::Hasher::write(&mut hasher, s.as_bytes());
    std::hash::Hasher::finish(&hasher)
}

pub open spec fn digit_char(d: nat) -> char {
    if d == 0 {
        '0'
    } else if d == 1 {
        '1'
    } else if d == 2 {
        '2'
    } else if d == 3 {
        '3'
    } else if d == 4 {
        '4'
    } else if d == 5 {
        '5'
    } else if d == 6 {
        '6'
    } else if d == 7 {
        '7'
    } else if d == 8 {
        '8'
    } else {
        '9'
    }
}

/// The decimal digits of `n`, most significant first, without leading zeros.
pub open spec fn decimal_of(n: nat) -> Seq<char>
    decreases n,
{
    if n < 10 {
        seq![digit_char(n)]
    } else {
        decimal_of(n / 10).push(digit_char(n % 10))
    }
}

fn digit_str(d: u64) -> (r: &'static str)
    requires
        d < 10,
    ensures
        r@ == seq![digit_char(d as nat)],
{
    proof {
        reveal_strlit("0");
        reveal_strlit("1");
        reveal_strlit("2");
        reveal_strlit("3");
        reveal_strlit("4");
        reveal_strlit("5");
        reveal_strlit("6");
        reveal_strlit("7");
        reveal_strlit("8");
        reveal_strlit("9");
    }
    let r = if d == 0 {
        "0"
    } else if d == 1 {
        "1"
    } else if d == 2 {
        "2"
    } else if d == 3 {
        "3"
    } else if d == 4 {
        "4"
    } else if d == 5 {
        "5"
    } else if d == 6 {
        "6"
    } else if d == 7 {
        "7"
    } else if d == 8 {
        "8"
    } else {
        "9"
    };
    assert(r@ =~= seq![digit_char(d as nat)]);
    r
}

/// Appends the decimal digits of `n` to `out`.
fn push_decimal(out: &mut String, n: u64)
    ensures
        final(out)@ == old(out)@ + decimal_of(n as nat),
    decreases n,
{
    if n >= 10 {
        push_decimal(out, n / 10);
    }
    out.append(digit_str(n % 10));
    assert(final(out)@ =~= old(out)@ + decimal_of(n as nat));
}

/// The decimal text of `n`.
pub fn decimal_string(n: u64) -> (r: String)
    ensures
        r@ == decimal_of(n as nat),
{
    let mut r = String::new();
    push_decimal(&mut r, n);
    assert(r@ =~= decimal_of(n as nat));
    r
}

/// A stable 64-bit hash of the string, in decimal: the cache key of a fixed phrase.
pub fn get_string_hash(string: &String) -> (r: String)
    ensures
        r@ == decimal_of(string_hash_of(string@) as nat),
{
    decimal_string(hash_str(string.as_str()))
}

/// The extension of the files that hold cached audio.
pub const CACHE_EXTENSION: &'static str = ".ogg";

/// The name of the file that holds the audio cached under `key`.
pub fn cache_file_name(key: &String) -> (r: String)
    ensures
        r@ == key@ + CACHE_EXTENSION@,
{
    let mut r = key.clone();
    r.append(CACHE_EXTENSION);
    r
}

} // verus!
