//! Character-level helpers: escaping, decimal digits, qualified names and byte decoding.
use vstd::prelude::*;

verus! {

/// The characters that `String::from_utf8_lossy` decodes from `b`.
pub uninterp spec fn lossy_chars(b: Seq<u8>) -> Seq<char>;

/// Relies on `String::push`: appends one character.
#[verifier::external_body]
pub(crate) fn push_char(s: &mut String, c: char)
    ensures
        final(s)@ == old(s)@.push(c),
{
    s.push(c)
}

/// Relies on `String::from_utf8_lossy`: decodes bytes as UTF-8, replacing invalid
/// sequences; the result depends on the bytes alone, and no bytes give no characters.
#[verifier::external_body]
pub(crate) fn lossy_string(b: &[u8]) -> (r: String)
    ensures
        r@ == lossy_chars(b@),
        b@.len() == 0 ==> r@.len() == 0,
{
    String::from_utf8_lossy(b).into_owned()
}

/// Whether the characters of `s` are exactly those of `lit`.
pub fn str_is(s: &String, lit: &str) -> (r: bool)
    ensures
        r == (s@ == lit@),
{
    let other = String::from_str(lit);
    s.eq(&other)
}

/// The entity reference for `&`, `<`, `>` or `"`; any other character stands for itself.
pub open spec fn escape_char(c: char) -> Seq<char> {
    if c == '&' {
        "&amp;"@
    } else if c == '<' {
        "&lt;"@
    } else if c == '>' {
        "&gt;"@
    } else if c == '"' {
        "&quot;"@
    } else {
        seq![c]
    }
}

/// The text `s` with `&`, `<`, `>` and `"` replaced by their entity references.
pub open spec fn escape(s: Seq<char>) -> Seq<char>
    decreases s.len(),
{
    if s.len() == 0 {
        Seq::empty()
    } else {
        escape(s.drop_last()) + escape_char(s.last())
    }
}

/// Appends the escaped form of `s` to `out`.
pub fn push_escaped(out: &mut String, s: &str)
    ensures
        final(out)@ == old(out)@ + escape(s@),
{
    broadcast use vstd::string::group_string_axioms;
    let ghost start = out@;
    for c in it: s.chars()
        invariant
            it.seq() == s@,
            out@ == start + escape(s@.take(it.index() as int)),
    {
        let ghost i = it.index();
        proof {
            assert(s@.take(i + 1).drop_last() =~= s@.take(i as int));
            assert(c == s@[i as int]);
        }
        if c == '&' {
            out.append("&amp;");
        } else if c == '<' {
            out.append("&lt;");
        } else if c == '>' {
            out.append("&gt;");
        } else if c == '"' {
            out.append("&quot;");
        } else {
            push_char(out, c);
        }
        proof {
            assert(out@ =~= start + escape(s@.take(i + 1)));
        }
    }
    proof {
        assert(s@.take(s@.len() as int) =~= s@);
    }
}

/// The escaped form of `s`.
pub fn xml_escape(s: &str) -> (r: String)
    ensures
        r@ == escape(s@),
{
    let mut r = String::new();
    push_escaped(&mut r, s);
    proof {
        assert(r@ =~= escape(s@));
    }
    r
}

pub open spec fn digit(d: nat) -> char {
    seq!['0', '1', '2', '3', '4', '5', '6', '7', '8', '9'][d as int]
}

/// The decimal digits of `n`, without leading zeros.
pub open spec fn decimal(n: nat) -> Seq<char>
    decreases n,
{
    if n < 10 {
        seq![digit(n)]
    } else {
        decimal(n / 10).push(digit(n % 10))
    }
}

fn digit_char(d: u8) -> (c: char)
    requires
        d < 10,
    ensures
        c == digit(d as nat),
{
    if d == 0 { '0' } else if d == 1 { '1' } else if d == 2 { '2' } else if d == 3 { '3' }
    else if d == 4 { '4' } else if d == 5 { '5' } else if d == 6 { '6' } else if d == 7 { '7' }
    else if d == 8 { '8' } else { '9' }
}

/// Appends the decimal digits of `n` to `out`.
pub fn push_decimal(out: &mut String, n: u8)
    ensures
        final(out)@ == old(out)@ + decimal(n as nat),
{
    if n >= 100 {
        push_char(out, digit_char(n / 100));
    }
    if n >= 10 {
        push_char(out, digit_char((n / 10) % 10));
    }
    push_char(out, digit_char(n % 10));
    proof {
        let m = n as nat;
        if m >= 100 {
            assert(decimal(m / 100) == seq![digit(m / 100)]);
            assert((m / 10) / 10 == m / 100);
            assert(decimal(m / 10) == decimal(m / 100).push(digit((m / 10) % 10)));
        } else if m >= 10 {
            assert(decimal(m / 10) == seq![digit(m / 10)]);
        }
        assert(final(out)@ =~= old(out)@ + decimal(m));
    }
}

pub open spec fn colon_from(n: Seq<u8>, i: int) -> int
    decreases n.len() - i,
{
    if i >= n.len() || i < 0 {
        n.len() as int
    } else if n[i] == 58u8 {
        i
    } else {
        colon_from(n, i + 1)
    }
}

/// A qualified name without its prefix: what follows the first colon, or the whole name.
pub open spec fn local_part(n: Seq<u8>) -> Seq<u8> {
    let p = colon_from(n, 0);
    if p < n.len() {
        n.subrange(p + 1, n.len() as int)
    } else {
        n
    }
}

pub fn local_name(name: &[u8]) -> (r: Vec<u8>)
    ensures
        r@ == local_part(name@),
{
    let n = name.len();
    let mut i: usize = 0;
    while i < n && name[i] != 58u8
        invariant
            n == name@.len(),
            i <= n,
            colon_from(name@, 0) == colon_from(name@, i as int),
        decreases n - i,
    {
        i = i + 1;
    }
    let start: usize = if i < n { i + 1 } else { 0 };
    let mut r: Vec<u8> = Vec::new();
    let mut j: usize = start;
    while j < n
        invariant
            n == name@.len(),
            start <= j <= n,
            r@ == name@.subrange(start as int, j as int),
        decreases n - j,
    {
        r.push(name[j]);
        proof {
            assert(r@ =~= name@.subrange(start as int, j + 1));
        }
        j = j + 1;
    }
    proof {
        assert(name@.subrange(0, n as int) =~= name@);
    }
    r
}

/// The characters of the local part of a qualified name.
pub open spec fn local_text(n: Seq<u8>) -> Seq<char> {
    lossy_chars(local_part(n))
}

pub fn local_name_text(name: &[u8]) -> (r: String)
    ensures
        r@ == local_text(name@),
{
    let l = local_name(name);
    lossy_string(l.as_slice())
}

} // verus!
