//! Character-level string operations, with their meaning stated over `Seq<char>`.
use vstd::prelude::*;

verus! {

/// The characters of `s`, in order.
pub(crate) fn chars_of(s: &str) -> (r: Vec<char>)
    ensures
        r@ == s@,
{
    let mut out: Vec<char> = Vec::new();
    for c in it: s.chars()
        invariant
            it.seq() == s@,
            out@ == it.seq().take(it.index() as int),
    {
        out.push(c);
    }
    assert(out@ =~= s@);
    out
}

/// Relies on `String`'s `FromIterator<&char>`: a string of exactly these characters.
#[verifier::external_body]
pub(crate) fn string_of(cs: &Vec<char>) -> (r: String)
    ensures
        r@ == cs@,
{
    cs.iter().collect()
}

/// `pat` occurs in `s` starting at position `i`.
pub open spec fn occurs_at(s: Seq<char>, pat: Seq<char>, i: int) -> bool {
    0 <= i && i + pat.len() <= s.len() && s.subrange(i, i + pat.len()) == pat
}

/// `pat` occurs somewhere in `s`.
pub open spec fn contains_seq(s: Seq<char>, pat: Seq<char>) -> bool {
    exists|i: int| occurs_at(s, pat, i)
}

fn occurs_at_exec(s: &Vec<char>, pat: &Vec<char>, i: usize) -> (r: bool)
    requires
        i <= s.len(),
    ensures
        r == occurs_at(s@, pat@, i as int),
{
    if pat.len() > s.len() - i {
        return false;
    }
    let mut k: usize = 0;
    while k < pat.len()
        invariant
            i + pat.len() <= s.len(),
            k <= pat.len(),
            forall|j: int| 0 <= j < k ==> s@[i + j] == pat@[j],
        decreases pat.len() - k,
    {
        if s[i + k] != pat[k] {
            return false;
        }
        k = k + 1;
    }
    assert(s@.subrange(i as int, i + pat.len()) =~= pat@);
    true
}

/// Whether `pat` occurs in `s`.
pub fn contains_str(s: &str, pat: &str) -> (r: bool)
    ensures
        r == contains_seq(s@, pat@),
{
    let cs = chars_of(s);
    let ps = chars_of(pat);
    if ps.len() > cs.len() {
        return false;
    }
    let last: usize = cs.len() - ps.len();
    let mut i: usize = 0;
    while i < last
        invariant
            cs@ == s@,
            ps@ == pat@,
            last == cs.len() - ps.len(),
            forall|j: int| 0 <= j < i ==> !occurs_at(s@, pat@, j),
            i <= last,
        decreases last - i,
    {
        if occurs_at_exec(&cs, &ps, i) {
            return true;
        }
        i = i + 1;
    }
    if occurs_at_exec(&cs, &ps, last) {
        return true;
    }
    assert forall|j: int| !occurs_at(s@, pat@, j) by {
        if 0 <= j && j + pat@.len() <= s@.len() {
            assert(j <= last);
        }
    }
    false
}

/// `s` with every occurrence of the non-empty `pat` replaced by `rep`, scanning
/// from the left; an occurrence starts only after the previous one ends.
pub open spec fn replace_all(s: Seq<char>, pat: Seq<char>, rep: Seq<char>) -> Seq<char>
    decreases s.len(),
{
    if pat.len() == 0 || s.len() < pat.len() {
        s
    } else if s.subrange(0, pat.len() as int) == pat {
        rep + replace_all(s.subrange(pat.len() as int, s.len() as int), pat, rep)
    } else {
        seq![s[0]] + replace_all(s.subrange(1, s.len() as int), pat, rep)
    }
}

fn append_chars(out: &mut Vec<char>, cs: &Vec<char>)
    ensures
        final(out)@ == old(out)@ + cs@,
{
    let mut k: usize = 0;
    while k < cs.len()
        invariant
            k <= cs.len(),
            out@ == old(out)@ + cs@.subrange(0, k as int),
        decreases cs.len() - k,
    {
        out.push(cs[k]);
        k = k + 1;
        assert(out@ =~= old(out)@ + cs@.subrange(0, k as int));
    }
    assert(cs@.subrange(0, cs.len() as int) =~= cs@);
}

/// `s` with every occurrence of `pat` replaced by `rep`, taken literally.
pub fn replace_str(s: &str, pat: &str, rep: &str) -> (r: String)
    requires
        pat@.len() > 0,
    ensures
        r@ == replace_all(s@, pat@, rep@),
{
    let cs = chars_of(s);
    let ps = chars_of(pat);
    let rs = chars_of(rep);
    let n = cs.len();
    let mut out: Vec<char> = Vec::new();
    let mut i: usize = 0;
    assert(cs@.subrange(0, n as int) =~= cs@);
    while i < n
        invariant
            cs@ == s@,
            ps@ == pat@,
            rs@ == rep@,
            n == cs.len(),
            pat@.len() > 0,
            i <= n,
            out@ + replace_all(cs@.subrange(i as int, n as int), pat@, rep@) == replace_all(s@, pat@, rep@),
        decreases n - i,
    {
        let ghost t = cs@.subrange(i as int, n as int);
        if occurs_at_exec(&cs, &ps, i) {
            assert(t.subrange(0, pat@.len() as int) =~= pat@);
            assert(t.subrange(pat@.len() as int, t.len() as int) =~= cs@.subrange(i + pat@.len(), n as int));
            let ghost before = out@;
            append_chars(&mut out, &rs);
            assert(out@ + replace_all(cs@.subrange(i + pat@.len(), n as int), pat@, rep@)
                =~= before + replace_all(t, pat@, rep@));
            i = i + ps.len();
        } else if ps.len() <= n - i {
            assert(t.subrange(0, pat@.len() as int) =~= cs@.subrange(i as int, i + pat@.len()));
            assert(t.subrange(0, pat@.len() as int) != pat@);
            assert(t.subrange(1, t.len() as int) =~= cs@.subrange(i + 1, n as int));
            let ghost before = out@;
            out.push(cs[i]);
            assert(out@ + replace_all(cs@.subrange(i + 1, n as int), pat@, rep@)
                =~= before + replace_all(t, pat@, rep@));
            i = i + 1;
        } else {
            let ghost before = out@;
            let mut j: usize = i;
            while j < n
                invariant
                    cs@ == s@,
                    n == cs.len(),
                    i <= j <= n,
                    out@ == before + cs@.subrange(i as int, j as int),
                decreases n - j,
            {
                out.push(cs[j]);
                j = j + 1;
                assert(out@ =~= before + cs@.subrange(i as int, j as int));
            }
            assert(replace_all(t, pat@, rep@) == t);
            assert(out@ + replace_all(cs@.subrange(n as int, n as int), pat@, rep@) =~= before + t);
            i = n;
        }
    }
    assert(replace_all(cs@.subrange(n as int, n as int), pat@, rep@) =~= Seq::<char>::empty());
    assert(out@ =~= replace_all(s@, pat@, rep@));
    string_of(&out)
}

/// The characters that Unicode gives the `White_Space` property.
pub open spec fn is_white_space(c: char) -> bool {
    let u = c as u32;
    (9 <= u && u <= 13) || u == 32 || u == 0x85 || u == 0xa0 || u == 0x1680
        || (0x2000 <= u && u <= 0x200a) || u == 0x2028 || u == 0x2029 || u == 0x202f
        || u == 0x205f || u == 0x3000
}

fn is_white_space_exec(c: char) -> (r: bool)
    ensures
        r == is_white_space(c),
{
    let u = c as u32;
    (9 <= u && u <= 13) || u == 32 || u == 0x85 || u == 0xa0 || u == 0x1680
        || (0x2000 <= u && u <= 0x200a) || u == 0x2028 || u == 0x2029 || u == 0x202f
        || u == 0x205f || u == 0x3000
}

/// `s` without its leading white space.
pub open spec fn trim_start(s: Seq<char>) -> Seq<char>
    decreases s.len(),
{
    if s.len() > 0 && is_white_space(s[0]) {
        trim_start(s.subrange(1, s.len() as int))
    } else {
        s
    }
}

/// `s` without its trailing white space.
pub open spec fn trim_end(s: Seq<char>) -> Seq<char>
    decreases s.len(),
{
    if s.len() > 0 && is_white_space(s.last()) {
        trim_end(s.drop_last())
    } else {
        s
    }
}

/// `s` without white space at either end.
pub open spec fn trimmed(s: Seq<char>) -> Seq<char> {
    trim_end(trim_start(s))
}

/// The characters of `s` without white space at either end.
pub fn trim_chars(s: &str) -> (r: Vec<char>)
    ensures
        r@ == trimmed(s@),
{
    let cs = chars_of(s);
    let n = cs.len();
    let mut a: usize = 0;
    assert(cs@.subrange(0, n as int) =~= cs@);
    while a < n && is_white_space_exec(cs[a])
        invariant
            cs@ == s@,
            n == cs.len(),
            a <= n,
            trim_start(s@) == trim_start(cs@.subrange(a as int, n as int)),
        decreases n - a,
    {
        assert(cs@.subrange(a as int, n as int).subrange(1, n - a) =~= cs@.subrange(a + 1, n as int));
        a = a + 1;
    }
    let mut b: usize = n;
    while b > a && is_white_space_exec(cs[b - 1])
        invariant
            cs@ == s@,
            n == cs.len(),
            a <= b <= n,
            trim_start(s@) == cs@.subrange(a as int, n as int),
            trimmed(s@) == trim_end(cs@.subrange(a as int, b as int)),
        decreases b - a,
    {
        assert(cs@.subrange(a as int, b as int).drop_last() =~= cs@.subrange(a as int, b - 1));
        b = b - 1;
    }
    let mut out: Vec<char> = Vec::new();
    let mut k: usize = a;
    while k < b
        invariant
            cs@ == s@,
            n == cs.len(),
            a <= k <= b <= n,
            out@ == cs@.subrange(a as int, k as int),
        decreases b - k,
    {
        out.push(cs[k]);
        k = k + 1;
        assert(out@ =~= cs@.subrange(a as int, k as int));
    }
    out
}

/// The parts joined by single spaces.
pub open spec fn join_spaced(parts: Seq<Seq<char>>) -> Seq<char>
    decreases parts.len(),
{
    if parts.len() == 0 {
        Seq::empty()
    } else if parts.len() == 1 {
        parts[0]
    } else {
        join_spaced(parts.drop_last()) + seq![' '] + parts.last()
    }
}

/// The text of a list of text nodes: every node trimmed, and the trimmed
/// nodes joined by single spaces.
pub open spec fn node_text(nodes: Seq<Seq<char>>) -> Seq<char> {
    join_spaced(nodes.map_values(|t: Seq<char>| trimmed(t)))
}

/// The text of a list of text nodes, as `node_text` states it.
pub fn join_text_nodes(nodes: &Vec<String>) -> (r: String)
    ensures
        r@ == node_text(nodes@.map_values(|t: String| t@)),
{
    let ghost views = nodes@.map_values(|t: String| t@);
    let ghost tf = |t: Seq<char>| trimmed(t);
    let mut out: Vec<char> = Vec::new();
    let mut i: usize = 0;
    assert(views.subrange(0, 0).map_values(tf) =~= Seq::<Seq<char>>::empty());
    while i < nodes.len()
        invariant
            i <= nodes.len(),
            views == nodes@.map_values(|t: String| t@),
            tf == (|t: Seq<char>| trimmed(t)),
            out@ == join_spaced(views.subrange(0, i as int).map_values(tf)),
        decreases nodes.len() - i,
    {
        let t = trim_chars(nodes[i].as_str());
        let ghost done = views.subrange(0, i as int).map_values(tf);
        let ghost before = out@;
        assert(views.subrange(0, i + 1).map_values(tf) =~= done.push(t@));
        assert(done.push(t@).drop_last() =~= done);
        if i > 0 {
            out.push(' ');
        }
        append_chars(&mut out, &t);
        assert(out@ =~= join_spaced(done.push(t@)));
        i = i + 1;
    }
    assert(views.subrange(0, nodes.len() as int) =~= views);
    string_of(&out)
}

/// The decimal digits of `n`, without leading zeros (`0` for zero).
pub open spec fn decimal(n: nat) -> Seq<char>
    decreases n,
{
    if n < 10 {
        seq![('0' as u8 + n) as char]
    } else {
        decimal(n / 10) + seq![('0' as u8 + (n % 10)) as char]
    }
}

/// The decimal digits of `n`.
pub fn decimal_string(n: usize) -> (r: String)
    ensures
        r@ == decimal(n as nat),
{
    let mut digits: Vec<char> = Vec::new();
    let mut m: usize = n;
    assert(decimal(n as nat) =~= decimal(m as nat) + digits@);
    while m >= 10
        invariant
            decimal(n as nat) == decimal(m as nat) + digits@,
        decreases m,
    {
        let c = ('0' as u8 + (m % 10) as u8) as char;
        let ghost rest = digits@;
        digits.insert(0, c);
        assert(digits@ =~= seq![c] + rest);
        assert(decimal(m as nat) == decimal((m / 10) as nat) + seq![c]);
        assert(decimal(n as nat) =~= decimal((m / 10) as nat) + digits@);
        m = m / 10;
    }
    let c = ('0' as u8 + m as u8) as char;
    let ghost rest = digits@;
    digits.insert(0, c);
    assert(digits@ =~= seq![c] + rest);
    assert(decimal(n as nat) =~= digits@);
    string_of(&digits)
}

} // verus!
