//! Deterministic on-disk naming for board documents: a board is stored at
//! `<sanitized-name>-<id>.json`, where sanitization replaces every character
//! that is not alphanumeric, `-`, or `_` with `-` and lower-cases the
//! result, keeping filenames filesystem-safe across platforms.
use vstd::prelude::*;
use vstd::string::StringExecFns;

verus! {

broadcast use vstd::string::axiom_spec_iter;

/// What `str::to_lowercase` returns for the given characters; the result
/// depends on the characters alone.
pub uninterp spec fn lower_of(s: Seq<char>) -> Seq<char>;

/// What `char::is_alphanumeric` returns for the given character; a pure
/// function of the character.
pub uninterp spec fn char_is_alphanumeric(c: char) -> bool;

/// Relies on char::is_alphanumeric: whether the character is Unicode
/// alphabetic or a Unicode number.
#[verifier::external_body]
fn is_alphanumeric_char(c: char) -> (r: bool)
    ensures
        r == char_is_alphanumeric(c),
{
    c.is_alphanumeric()
}

/// Relies on str::to_lowercase: the Unicode lowercase form of the string,
/// a function of its characters alone; an empty string stays empty.
#[verifier::external_body]
fn to_lowercase_str(s: &str) -> (r: String)
    ensures
        r@ == lower_of(s@),
        s@.len() == 0 ==> r@.len() == 0,
{
    s.to_lowercase()
}

/// Relies on String's FromIterator over char: collecting yields exactly
/// the given characters, in order.
#[verifier::external_body]
fn chars_to_string(v: &Vec<char>) -> (r: String)
    ensures
        r@ == v@,
{
    v.iter().collect()
}

/// A character that survives sanitization unchanged.
pub open spec fn keep_char(c: char) -> bool {
    char_is_alphanumeric(c) || c == '-' || c == '_'
}

/// One character after sanitization, before lower-casing.
pub open spec fn replace_char(c: char) -> char {
    if keep_char(c) {
        c
    } else {
        '-'
    }
}

/// The whole string after character replacement, before lower-casing.
pub open spec fn replaced(s: Seq<char>) -> Seq<char> {
    s.map_values(|c: char| replace_char(c))
}

/// The sanitized form of a name: every character that is not alphanumeric,
/// `-`, or `_` replaced with `-`, then the whole string lower-cased.
pub open spec fn sanitized(s: Seq<char>) -> Seq<char> {
    lower_of(replaced(s))
}

/// Make a display name filesystem-safe: replace every character that is not
/// alphanumeric, `-`, or `_` with `-`, and lower-case the result.
pub fn sanitize_filename(name: &str) -> (r: String)
    ensures
        r@ == sanitized(name@),
{
    let mut kept: Vec<char> = Vec::new();
    for c in it: name.chars()
        invariant
            it.seq() == name@,
            kept@ == replaced(name@.take(it.index())),
    {
        if is_alphanumeric_char(c) || c == '-' || c == '_' {
            kept.push(c);
        } else {
            kept.push('-');
        }
        proof {
            assert(kept@ =~= replaced(name@.take(it.index() + 1)));
        }
    }
    proof {
        assert(name@.take(name@.len() as int) =~= name@);
    }
    let joined = chars_to_string(&kept);
    to_lowercase_str(joined.as_str())
}

/// The decimal digit character for a value below ten.
pub open spec fn dec_digit(d: int) -> char {
    if d == 0 {
        '0'
    } else if d == 1 {
        '1'
    } else if d == 2 {
        '2'
    } else if d == 3 {
        '3'
    } else if d == 4 {
        '4'
    } else if d == 5 {
        '5'
    } else if d == 6 {
        '6'
    } else if d == 7 {
        '7'
    } else if d == 8 {
        '8'
    } else {
        '9'
    }
}

/// The decimal digit string of a non-negative integer, most significant
/// digit first, with no leading zeros (a single zero for zero itself).
pub open spec fn dec_digits(n: int) -> Seq<char>
    decreases n,
{
    if n < 10 {
        seq![dec_digit(n)]
    } else {
        dec_digits(n / 10).push(dec_digit(n % 10))
    }
}

fn dec_digit_char(d: u64) -> (c: char)
    requires
        d < 10,
    ensures
        c == dec_digit(d as int),
{
    match d {
        0 => '0',
        1 => '1',
        2 => '2',
        3 => '3',
        4 => '4',
        5 => '5',
        6 => '6',
        7 => '7',
        8 => '8',
        _ => '9',
    }
}

fn push_dec_digits(out: &mut Vec<char>, n: u64)
    ensures
        final(out)@ == old(out)@ + dec_digits(n as int),
    decreases n,
{
    if n >= 10 {
        push_dec_digits(out, n / 10);
    }
    out.push(dec_digit_char(n % 10));
    proof {
        assert(final(out)@ =~= old(out)@ + dec_digits(n as int));
    }
}

/// The decimal digit string of an id, as a `String`.
pub fn decimal_string(n: u64) -> (r: String)
    ensures
        r@ == dec_digits(n as int),
{
    let mut digits: Vec<char> = Vec::new();
    push_dec_digits(&mut digits, n);
    chars_to_string(&digits)
}

/// The file name a board is stored under, determined by its current name
/// and its id.
pub open spec fn board_file_name_spec(name: Seq<char>, id: u64) -> Seq<char> {
    sanitized(name) + seq!['-'] + dec_digits(id as int) + seq!['.', 'j', 's', 'o', 'n']
}

/// Compute the canonical file name for a board: the sanitized display name,
/// a dash, the decimal id, and the `.json` suffix.
pub fn board_file_name(name: &str, id: u64) -> (r: String)
    ensures
        r@ == board_file_name_spec(name@, id),
{
    let mut s = sanitize_filename(name);
    s.append("-");
    let ds = decimal_string(id);
    s.append(ds.as_str());
    s.append(".json");
    proof {
        reveal_strlit("-");
        reveal_strlit(".json");
        assert(s@ =~= board_file_name_spec(name@, id));
    }
    s
}

} // verus!
