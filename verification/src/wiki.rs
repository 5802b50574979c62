//! Helpers for the content-acquisition collaborator: the request
//! identity string and the open-license allow-list.

use vstd::prelude::*;

use crate::target::spec_digit_val;
use vstd::string::StringExecFns;

verus! {

/// The identity string sent with acquisition requests, assembled from
/// the running package's name, version and authors.
pub fn make_user_agent(pkg_name: &str, pkg_version: &str, pkg_authors: &str) -> (r: String)
    ensures
        r@ == pkg_name@ + "/psi-wm-downloader/"@ + pkg_version@ + " ("@ + pkg_authors@ + ")"@,
{
    let mut s = String::new();
    s.append(pkg_name);
    s.append("/psi-wm-downloader/");
    s.append(pkg_version);
    s.append(" (");
    s.append(pkg_authors);
    s.append(")");
    proof {
        assert(s@ =~= pkg_name@ + "/psi-wm-downloader/"@ + pkg_version@ + " ("@ + pkg_authors@
            + ")"@);
    }
    s
}

/// License text normalization: hyphens become spaces and ASCII letters
/// are raised to upper case; every other character is unchanged.
pub open spec fn spec_norm_char(c: char) -> char {
    match c {
        '-' => ' ',
        'a' => 'A',
        'b' => 'B',
        'c' => 'C',
        'd' => 'D',
        'e' => 'E',
        'f' => 'F',
        'g' => 'G',
        'h' => 'H',
        'i' => 'I',
        'j' => 'J',
        'k' => 'K',
        'l' => 'L',
        'm' => 'M',
        'n' => 'N',
        'o' => 'O',
        'p' => 'P',
        'q' => 'Q',
        'r' => 'R',
        's' => 'S',
        't' => 'T',
        'u' => 'U',
        'v' => 'V',
        'w' => 'W',
        'x' => 'X',
        'y' => 'Y',
        'z' => 'Z',
        _ => c,
    }
}

fn norm_char(c: char) -> (r: char)
    ensures
        r == spec_norm_char(c),
{
    match c {
        '-' => ' ',
        'a' => 'A',
        'b' => 'B',
        'c' => 'C',
        'd' => 'D',
        'e' => 'E',
        'f' => 'F',
        'g' => 'G',
        'h' => 'H',
        'i' => 'I',
        'j' => 'J',
        'k' => 'K',
        'l' => 'L',
        'm' => 'M',
        'n' => 'N',
        'o' => 'O',
        'p' => 'P',
        'q' => 'Q',
        'r' => 'R',
        's' => 'S',
        't' => 'T',
        'u' => 'U',
        'v' => 'V',
        'w' => 'W',
        'x' => 'X',
        'y' => 'Y',
        'z' => 'Z',
        _ => c,
    }
}

/// ASCII whitespace, as the version separator of a license name allows.
pub open spec fn spec_is_ws(c: char) -> bool {
    c == ' ' || c == '\t' || c == '\n' || c == '\u{b}' || c == '\u{c}' || c == '\r'
}

fn is_ws(c: char) -> (r: bool)
    ensures
        r == spec_is_ws(c),
{
    c == ' ' || c == '\t' || c == '\n' || c == '\u{b}' || c == '\u{c}' || c == '\r'
}

fn is_digit_c(c: char) -> (r: bool)
    ensures
        r == (spec_digit_val(c) is Some),
{
    match c {
        '0' => true,
        '1' => true,
        '2' => true,
        '3' => true,
        '4' => true,
        '5' => true,
        '6' => true,
        '7' => true,
        '8' => true,
        '9' => true,
        _ => false,
    }
}

/// A digit run that may continue to the end of the text.
pub open spec fn spec_frac_rest(t: Seq<char>) -> bool
    decreases t.len(),
{
    if t.len() == 0 {
        true
    } else if spec_digit_val(t[0]) is Some {
        spec_frac_rest(t.skip(1))
    } else {
        false
    }
}

/// A fraction part: at least one digit, digits to the end.
pub open spec fn spec_frac(t: Seq<char>) -> bool {
    t.len() > 0 && spec_digit_val(t[0]) is Some && spec_frac_rest(t.skip(1))
}

/// What may follow a version's leading digit: more digits, then
/// optionally a dot and a fraction, to the end of the text.
pub open spec fn spec_version_rest(t: Seq<char>) -> bool
    decreases t.len(),
{
    if t.len() == 0 {
        true
    } else if spec_digit_val(t[0]) is Some {
        spec_version_rest(t.skip(1))
    } else if t[0] == '.' {
        spec_frac(t.skip(1))
    } else {
        false
    }
}

/// A version number: digits, optionally a dot and more digits.
pub open spec fn spec_version(t: Seq<char>) -> bool {
    t.len() > 0 && spec_digit_val(t[0]) is Some && spec_version_rest(t.skip(1))
}

/// Whitespace continuing up to a version number.
pub open spec fn spec_after_ws(t: Seq<char>) -> bool
    decreases t.len(),
{
    if t.len() == 0 {
        false
    } else if spec_is_ws(t[0]) {
        spec_after_ws(t.skip(1))
    } else {
        spec_version(t)
    }
}

/// At least one whitespace character, then a version number.
pub open spec fn spec_ws_then_version(t: Seq<char>) -> bool {
    t.len() > 0 && spec_is_ws(t[0]) && spec_after_ws(t.skip(1))
}

/// A Creative Commons attribution license name in normalized form:
/// `CC BY`, optionally followed by whitespace and a version number.
pub open spec fn spec_cc_by(l: Seq<char>) -> bool {
    &&& l.len() >= 5
    &&& l.subrange(0, 5) == seq!['C', 'C', ' ', 'B', 'Y']
    &&& (l.len() == 5 || spec_ws_then_version(l.skip(5)))
}

/// Whether license text names an acceptable open license: after
/// normalization, exactly `CC0`, `PUBLIC DOMAIN`, or a `CC BY` form with
/// an optional version.
pub open spec fn spec_valid_license(s: Seq<char>) -> bool {
    let l = s.map_values(|c: char| spec_norm_char(c));
    ||| l == seq!['C', 'C', '0']
    ||| l == seq![
        'P',
        'U',
        'B',
        'L',
        'I',
        'C',
        ' ',
        'D',
        'O',
        'M',
        'A',
        'I',
        'N',
    ]
    ||| spec_cc_by(l)
}

fn cc_by_match(v: &Vec<char>) -> (r: bool)
    ensures
        r == spec_cc_by(v@),
{
    let n: usize = v.len();
    if n < 5 {
        return false;
    }
    if !(v[0] == 'C' && v[1] == 'C' && v[2] == ' ' && v[3] == 'B' && v[4] == 'Y') {
        proof {
            if v@.subrange(0, 5) == seq!['C', 'C', ' ', 'B', 'Y'] {
                assert(v@[0] == 'C' && v@[1] == 'C' && v@[2] == ' ' && v@[3] == 'B' && v@[4]
                    == 'Y') by {
                    assert(v@.subrange(0, 5)[0] == v@[0]);
                    assert(v@.subrange(0, 5)[1] == v@[1]);
                    assert(v@.subrange(0, 5)[2] == v@[2]);
                    assert(v@.subrange(0, 5)[3] == v@[3]);
                    assert(v@.subrange(0, 5)[4] == v@[4]);
                }
            }
        }
        return false;
    }
    proof {
        assert(v@.subrange(0, 5) =~= seq!['C', 'C', ' ', 'B', 'Y']);
    }
    if n == 5 {
        return true;
    }
    // Whitespace run after the license family name.
    if !is_ws(v[5]) {
        proof {
            assert(v@.skip(5)[0] == v@[5]);
        }
        return false;
    }
    let mut j: usize = 6;
    proof {
        assert(v@.skip(5)[0] == v@[5]);
        assert(v@.skip(5).skip(1) =~= v@.skip(6));
    }
    while j < n && is_ws(v[j])
        invariant
            6 <= j <= n,
            n == v@.len(),
            spec_after_ws(v@.skip(6)) == spec_after_ws(v@.skip(j as int)),
        decreases n - j,
    {
        proof {
            assert(v@.skip(j as int)[0] == v@[j as int]);
            assert(v@.skip(j as int).skip(1) =~= v@.skip(j as int + 1));
        }
        j = j + 1;
    }
    if j == n {
        proof {
            assert(v@.skip(j as int).len() == 0);
        }
        return false;
    }
    proof {
        assert(v@.skip(j as int)[0] == v@[j as int]);
    }
    // Version: digits, optionally a dot and more digits, to the end.
    if !is_digit_c(v[j]) {
        return false;
    }
    let mut k: usize = j + 1;
    proof {
        assert(v@.skip(j as int).skip(1) =~= v@.skip(j as int + 1));
    }
    while k < n && is_digit_c(v[k])
        invariant
            j < k <= n,
            n == v@.len(),
            spec_version_rest(v@.skip(j as int + 1)) == spec_version_rest(v@.skip(k as int)),
        decreases n - k,
    {
        proof {
            assert(v@.skip(k as int)[0] == v@[k as int]);
            assert(v@.skip(k as int).skip(1) =~= v@.skip(k as int + 1));
        }
        k = k + 1;
    }
    if k == n {
        proof {
            assert(v@.skip(k as int).len() == 0);
        }
        return true;
    }
    proof {
        assert(v@.skip(k as int)[0] == v@[k as int]);
    }
    if !(v[k] == '.') {
        return false;
    }
    if k + 1 == n {
        proof {
            assert(v@.skip(k as int).skip(1) =~= v@.skip(k as int + 1));
        }
        return false;
    }
    proof {
        assert(v@.skip(k as int).skip(1) =~= v@.skip(k as int + 1));
        assert(v@.skip(k as int + 1)[0] == v@[k as int + 1]);
    }
    if !is_digit_c(v[k + 1]) {
        return false;
    }
    let mut m: usize = k + 2;
    proof {
        assert(v@.skip(k as int + 1).skip(1) =~= v@.skip(k as int + 2));
    }
    while m < n && is_digit_c(v[m])
        invariant
            k + 2 <= m <= n,
            n == v@.len(),
            spec_frac_rest(v@.skip(k as int + 2)) == spec_frac_rest(v@.skip(m as int)),
        decreases n - m,
    {
        proof {
            assert(v@.skip(m as int)[0] == v@[m as int]);
            assert(v@.skip(m as int).skip(1) =~= v@.skip(m as int + 1));
        }
        m = m + 1;
    }
    if m == n {
        proof {
            assert(v@.skip(m as int).len() == 0);
        }
        true
    } else {
        proof {
            assert(v@.skip(m as int)[0] == v@[m as int]);
        }
        false
    }
}

/// Whether license text names an acceptable open license for target
/// acquisition: `CC0`, public domain, or Creative Commons attribution
/// (`CC BY`, optionally versioned), compared after normalizing hyphens
/// to spaces and raising ASCII letters to upper case.
pub fn valid_license(license: &str) -> (r: bool)
    ensures
        r == spec_valid_license(license@),
{
    let cs = crate::text::chars_vec(license);
    let n: usize = cs.len();
    let mut l: Vec<char> = Vec::new();
    let mut i: usize = 0;
    while i < n
        invariant
            i <= n,
            n == cs@.len(),
            cs@ == license@,
            l@ =~= license@.take(i as int).map_values(|c: char| spec_norm_char(c)),
        decreases n - i,
    {
        l.push(norm_char(cs[i]));
        i = i + 1;
        assert(l@ =~= license@.take(i as int).map_values(|c: char| spec_norm_char(c)));
    }
    proof {
        assert(license@.take(n as int) =~= license@);
    }
    let ghost ll = license@.map_values(|c: char| spec_norm_char(c));
    let m: usize = l.len();
    if m == 3 && l[0] == 'C' && l[1] == 'C' && l[2] == '0' {
        proof {
            assert(ll =~= seq!['C', 'C', '0']);
        }
        return true;
    }
    if m == 13 && l[0] == 'P' && l[1] == 'U' && l[2] == 'B' && l[3] == 'L' && l[4] == 'I' && l[5]
        == 'C' && l[6] == ' ' && l[7] == 'D' && l[8] == 'O' && l[9] == 'M' && l[10] == 'A' && l[11]
        == 'I' && l[12] == 'N' {
        proof {
            assert(ll =~= seq!['P', 'U', 'B', 'L', 'I', 'C', ' ', 'D', 'O', 'M', 'A', 'I', 'N']);
        }
        return true;
    }
    let r = cc_by_match(&l);
    proof {
        if ll == seq!['C', 'C', '0'] {
            assert(ll.len() == 3 && ll[0] == 'C' && ll[1] == 'C' && ll[2] == '0');
        }
        if ll == seq!['P', 'U', 'B', 'L', 'I', 'C', ' ', 'D', 'O', 'M', 'A', 'I', 'N'] {
            assert(ll.len() == 13 && ll[0] == 'P' && ll[1] == 'U' && ll[2] == 'B' && ll[3] == 'L'
                && ll[4] == 'I' && ll[5] == 'C' && ll[6] == ' ' && ll[7] == 'D' && ll[8] == 'O'
                && ll[9] == 'M' && ll[10] == 'A' && ll[11] == 'I' && ll[12] == 'N');
        }
    }
    r
}

} // verus!
