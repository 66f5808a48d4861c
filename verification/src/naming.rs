//! Character and filename helpers: string equality, ASCII case folding,
//! decimal rendering of collision counters, and splitting a filename into
//! its stem and extension the way the mover reattaches them.

use vstd::prelude::*;
use vstd::arithmetic::div_mod::lemma_fundamental_div_mod;
use vstd::arithmetic::div_mod::lemma_small_mod;

verus! {

/// Compares two string slices character by character.
pub fn str_eq(a: &str, b: &str) -> (r: bool)
    ensures
        r == (a@ == b@),
{
    let la = a.unicode_len();
    let lb = b.unicode_len();
    if la != lb {
        return false;
    }
    let mut i: usize = 0;
    while i < la
        invariant
            la == a@.len(),
            la == b@.len(),
            i <= la,
            forall|k: int| 0 <= k < i ==> a@[k] == b@[k],
        decreases la - i,
    {
        if a.get_char(i) != b.get_char(i) {
            return false;
        }
        i += 1;
    }
    proof {
        assert(a@ =~= b@);
    }
    true
}

/// ASCII case folding of one character; everything outside `A`..`Z` is kept.
pub open spec fn lower_char(c: char) -> char {
    if c == 'A' { 'a' } else if c == 'B' { 'b' } else if c == 'C' { 'c' }
    else if c == 'D' { 'd' } else if c == 'E' { 'e' } else if c == 'F' { 'f' }
    else if c == 'G' { 'g' } else if c == 'H' { 'h' } else if c == 'I' { 'i' }
    else if c == 'J' { 'j' } else if c == 'K' { 'k' } else if c == 'L' { 'l' }
    else if c == 'M' { 'm' } else if c == 'N' { 'n' } else if c == 'O' { 'o' }
    else if c == 'P' { 'p' } else if c == 'Q' { 'q' } else if c == 'R' { 'r' }
    else if c == 'S' { 's' } else if c == 'T' { 't' } else if c == 'U' { 'u' }
    else if c == 'V' { 'v' } else if c == 'W' { 'w' } else if c == 'X' { 'x' }
    else if c == 'Y' { 'y' } else if c == 'Z' { 'z' }
    else { c }
}

/// ASCII case folding of a character sequence.
pub open spec fn lower_seq(s: Seq<char>) -> Seq<char> {
    s.map_values(|c: char| lower_char(c))
}

/// ASCII case folding of one character, executable form.
pub fn to_lower_char(c: char) -> (r: char)
    ensures
        r == lower_char(c),
{
    if c == 'A' { 'a' } else if c == 'B' { 'b' } else if c == 'C' { 'c' }
    else if c == 'D' { 'd' } else if c == 'E' { 'e' } else if c == 'F' { 'f' }
    else if c == 'G' { 'g' } else if c == 'H' { 'h' } else if c == 'I' { 'i' }
    else if c == 'J' { 'j' } else if c == 'K' { 'k' } else if c == 'L' { 'l' }
    else if c == 'M' { 'm' } else if c == 'N' { 'n' } else if c == 'O' { 'o' }
    else if c == 'P' { 'p' } else if c == 'Q' { 'q' } else if c == 'R' { 'r' }
    else if c == 'S' { 's' } else if c == 'T' { 't' } else if c == 'U' { 'u' }
    else if c == 'V' { 'v' } else if c == 'W' { 'w' } else if c == 'X' { 'x' }
    else if c == 'Y' { 'y' } else if c == 'Z' { 'z' }
    else { c }
}

/// Relies on `String::push`: appends the given character to the end of the
/// string, and does nothing else.
#[verifier::external_body]
fn push_char(s: &mut String, c: char)
    ensures
        final(s)@ == old(s)@.push(c),
{
    s.push(c);
}

/// Lowercases the ASCII letters of a string, keeping everything else.
pub fn to_lowercase_ascii(s: &str) -> (r: String)
    ensures
        r@ == lower_seq(s@),
{
    let len = s.unicode_len();
    let mut out = String::new();
    let mut i: usize = 0;
    while i < len
        invariant
            len == s@.len(),
            i <= len,
            out@ == lower_seq(s@.take(i as int)),
        decreases len - i,
    {
        let c = s.get_char(i);
        push_char(&mut out, to_lower_char(c));
        proof {
            assert(s@.take(i + 1).drop_last() =~= s@.take(i as int));
            assert(out@ =~= lower_seq(s@.take(i + 1)));
        }
        i += 1;
    }
    proof {
        assert(s@.take(len as int) =~= s@);
    }
    out
}

/// The character for the decimal digit `d % 10`.
pub open spec fn dec_digit(d: nat) -> char {
    if d % 10 == 0 { '0' } else if d % 10 == 1 { '1' } else if d % 10 == 2 { '2' }
    else if d % 10 == 3 { '3' } else if d % 10 == 4 { '4' } else if d % 10 == 5 { '5' }
    else if d % 10 == 6 { '6' } else if d % 10 == 7 { '7' } else if d % 10 == 8 { '8' }
    else { '9' }
}

/// The decimal rendering of a natural number, most significant digit first,
/// without leading zeroes (but `0` itself is `"0"`).
pub open spec fn dec_rep(n: nat) -> Seq<char>
    decreases n,
{
    if n < 10 {
        seq![dec_digit(n)]
    } else {
        dec_rep(n / 10) + seq![dec_digit(n % 10)]
    }
}

/// A decimal rendering is never empty, and has at least two characters from
/// ten upward.
pub proof fn lemma_dec_rep_len(n: nat)
    ensures
        dec_rep(n).len() >= 1,
        n >= 10 ==> dec_rep(n).len() >= 2,
    decreases n,
{
    if n >= 10 {
        lemma_dec_rep_len(n / 10);
    }
}

/// Two numbers with the same decimal rendering are equal.
pub proof fn lemma_dec_rep_injective(a: nat, b: nat)
    requires
        dec_rep(a) == dec_rep(b),
    ensures
        a == b,
    decreases a,
{
    lemma_dec_rep_len(a);
    lemma_dec_rep_len(b);
    if a < 10 && b < 10 {
        lemma_small_mod(a, 10);
        lemma_small_mod(b, 10);
        assert(dec_rep(a) == seq![dec_digit(a)]);
        assert(dec_rep(b) == seq![dec_digit(b)]);
        assert(dec_rep(a)[0] == dec_digit(a));
        assert(dec_rep(b)[0] == dec_digit(b));
        assert(dec_digit(a) == dec_digit(b));
    } else if a < 10 {
        assert(dec_rep(a).len() == 1);
        assert(false);
    } else if b < 10 {
        assert(dec_rep(b).len() == 1);
        assert(false);
    } else {
        assert(dec_rep(a).last() == dec_digit(a % 10));
        assert(dec_rep(b).last() == dec_digit(b % 10));
        assert(a % 10 == b % 10);
        assert(dec_rep(a).drop_last() =~= dec_rep(a / 10));
        assert(dec_rep(b).drop_last() =~= dec_rep(b / 10));
        lemma_dec_rep_injective(a / 10, b / 10);
        lemma_fundamental_div_mod(a as int, 10);
        lemma_fundamental_div_mod(b as int, 10);
    }
}

/// The character for one decimal digit, executable form.
fn digit_char(d: u64) -> (c: char)
    requires
        d < 10,
    ensures
        c == dec_digit(d as nat),
{
    if d == 0 { '0' } else if d == 1 { '1' } else if d == 2 { '2' }
    else if d == 3 { '3' } else if d == 4 { '4' } else if d == 5 { '5' }
    else if d == 6 { '6' } else if d == 7 { '7' } else if d == 8 { '8' }
    else { '9' }
}

/// Renders a counter in decimal.
pub fn u64_to_dec(n: u64) -> (r: String)
    ensures
        r@ == dec_rep(n as nat),
    decreases n,
{
    if n < 10 {
        let mut s = String::new();
        push_char(&mut s, digit_char(n));
        proof {
            assert(s@ =~= seq![dec_digit(n as nat)]);
        }
        s
    } else {
        let mut s = u64_to_dec(n / 10);
        push_char(&mut s, digit_char(n % 10));
        proof {
            assert(s@ =~= dec_rep((n / 10) as nat) + seq![dec_digit((n % 10) as nat)]);
        }
        s
    }
}

/// The index of the dot that separates stem from extension: the last `.` at
/// position one or later, or `-1` when there is none (no dot at all, or only
/// a leading one, as in a hidden file).
pub open spec fn last_dot(name: Seq<char>) -> int
    decreases name.len(),
{
    if name.len() <= 1 {
        -1
    } else if name[name.len() - 1] == '.' {
        name.len() - 1
    } else {
        last_dot(name.drop_last())
    }
}

/// Where the split dot sits: it is in range, it is a dot, and no later
/// position holds one.
pub proof fn lemma_last_dot_props(name: Seq<char>)
    ensures
        -1 <= last_dot(name) < name.len(),
        last_dot(name) >= 0 ==> last_dot(name) >= 1 && name[last_dot(name)] == '.',
        forall|k: int| last_dot(name) < k < name.len() && k >= 1 ==> name[k] != '.',
    decreases name.len(),
{
    if name.len() <= 1 {
    } else if name[name.len() - 1] == '.' {
    } else {
        lemma_last_dot_props(name.drop_last());
        assert forall|k: int| last_dot(name) < k < name.len() && k >= 1 implies name[k]
            != '.' by {
            if k < name.len() - 1 {
                assert(name.drop_last()[k] != '.');
            }
        }
    }
}

/// A dot with no later dot is the split dot.
pub proof fn lemma_last_dot_at(name: Seq<char>, j: int)
    requires
        1 <= j < name.len(),
        name[j] == '.',
        forall|k: int| j < k < name.len() ==> name[k] != '.',
    ensures
        last_dot(name) == j,
    decreases name.len(),
{
    if j < name.len() - 1 {
        assert(name[name.len() - 1] != '.');
        lemma_last_dot_at(name.drop_last(), j);
    }
}

/// A name without a dot past its first position has no split dot.
pub proof fn lemma_last_dot_none(name: Seq<char>)
    requires
        forall|k: int| 1 <= k < name.len() ==> name[k] != '.',
    ensures
        last_dot(name) == -1,
    decreases name.len(),
{
    if name.len() > 1 {
        lemma_last_dot_none(name.drop_last());
    }
}

/// The stem: everything before the split dot, or the whole name when there
/// is none.
pub open spec fn stem_of(name: Seq<char>) -> Seq<char> {
    if last_dot(name) >= 1 {
        name.take(last_dot(name))
    } else {
        name
    }
}

/// The extension without its dot, used for classification; empty when the
/// name has none.
pub open spec fn ext_of(name: Seq<char>) -> Seq<char> {
    if last_dot(name) >= 1 {
        name.skip(last_dot(name) + 1)
    } else {
        Seq::empty()
    }
}

/// The suffix reattached after a collision counter: the split dot and the
/// extension, or empty when the name has none.
pub open spec fn suffix_of(name: Seq<char>) -> Seq<char> {
    if last_dot(name) >= 1 {
        name.skip(last_dot(name))
    } else {
        Seq::empty()
    }
}

/// Stem and suffix together restore the name.
pub proof fn lemma_stem_suffix(name: Seq<char>)
    ensures
        stem_of(name) + suffix_of(name) == name,
        stem_of(name).len() + suffix_of(name).len() == name.len(),
{
    lemma_last_dot_props(name);
    assert(stem_of(name) + suffix_of(name) =~= name);
}

/// Splits a filename into stem and suffix.  The suffix keeps its leading
/// dot, and is empty for names without an extension, so the two parts
/// concatenate back to the name.
pub fn split_filename(name: &str) -> (r: (String, String))
    ensures
        r.0@ == stem_of(name@),
        r.1@ == suffix_of(name@),
{
    let len = name.unicode_len();
    let mut i: usize = len;
    while i > 1
        invariant
            len == name@.len(),
            i <= len,
            forall|k: int| i <= k < len ==> name@[k] != '.',
        decreases i,
    {
        if name.get_char(i - 1) == '.' {
            proof {
                lemma_last_dot_at(name@, i as int - 1);
            }
            let stem = name.substring_char(0, i - 1).to_owned();
            let suffix = name.substring_char(i - 1, len).to_owned();
            proof {
                assert(stem@ =~= stem_of(name@));
                assert(suffix@ =~= suffix_of(name@));
            }
            return (stem, suffix);
        }
        i -= 1;
    }
    proof {
        lemma_last_dot_none(name@);
    }
    (name.to_owned(), String::new())
}

/// The extension used for classification, lowercased; empty when the name
/// has none.
pub fn extension_lower(name: &str) -> (r: String)
    ensures
        r@ == lower_seq(ext_of(name@)),
{
    let parts = split_filename(name);
    let s = parts.1.as_str();
    let l = s.unicode_len();
    if l == 0 {
        proof {
            lemma_last_dot_props(name@);
            assert(ext_of(name@) =~= Seq::<char>::empty());
            assert(lower_seq(ext_of(name@)) =~= Seq::<char>::empty());
        }
        String::new()
    } else {
        let e = s.substring_char(1, l);
        proof {
            lemma_last_dot_props(name@);
            assert(e@ =~= ext_of(name@));
        }
        to_lowercase_ascii(e)
    }
}

/// The n-th destination name tried for a colliding file: the name itself for
/// `n == 0`, and the stem with `_n` appended and the suffix reattached for
/// `n >= 1`.
pub open spec fn candidate(name: Seq<char>, n: nat) -> Seq<char> {
    if n == 0 {
        name
    } else {
        stem_of(name) + seq!['_'] + dec_rep(n) + suffix_of(name)
    }
}

/// Distinct counters give distinct candidate names.
pub proof fn lemma_candidate_injective(name: Seq<char>, i: nat, j: nat)
    requires
        candidate(name, i) == candidate(name, j),
    ensures
        i == j,
{
    lemma_stem_suffix(name);
    lemma_dec_rep_len(i);
    lemma_dec_rep_len(j);
    let st = stem_of(name);
    let su = suffix_of(name);
    if i == 0 && j == 0 {
    } else if i == 0 || j == 0 {
        assert(candidate(name, 0).len() == name.len());
        assert(false);
    } else {
        let di = dec_rep(i);
        let dj = dec_rep(j);
        assert(candidate(name, i) == st + seq!['_'] + di + su);
        assert(candidate(name, j) == st + seq!['_'] + dj + su);
        assert(candidate(name, i).len() == st.len() + 1 + di.len() + su.len());
        assert(candidate(name, j).len() == st.len() + 1 + dj.len() + su.len());
        assert(di.len() == dj.len());
        assert forall|k: int| 0 <= k < di.len() implies di[k] == dj[k] by {
            assert(candidate(name, i)[st.len() + 1 + k] == di[k]);
            assert(candidate(name, j)[st.len() + 1 + k] == dj[k]);
        }
        assert(di =~= dj);
        lemma_dec_rep_injective(i, j);
    }
}

/// Builds the name `stem_n` with the suffix reattached.
pub fn make_candidate(stem: &str, suffix: &str, n: u64) -> (r: String)
    ensures
        r@ == stem@ + seq!['_'] + dec_rep(n as nat) + suffix@,
{
    let mut s = stem.to_owned();
    push_char(&mut s, '_');
    let dec = u64_to_dec(n);
    s.append(dec.as_str());
    s.append(suffix);
    proof {
        assert(s@ =~= stem@ + seq!['_'] + dec_rep(n as nat) + suffix@);
    }
    s
}

} // verus!
