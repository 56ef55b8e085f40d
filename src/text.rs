use vstd::prelude::*;

verus! {

/// Whether a code point has the Unicode `White_Space` property.
pub open spec fn whitespace_code(u: u32) -> bool {
    (0x9 <= u <= 0xD) || u == 0x20 || u == 0x85 || u == 0xA0 || u == 0x1680 || (0x2000 <= u
        <= 0x200A) || u == 0x2028 || u == 0x2029 || u == 0x202F || u == 0x205F || u == 0x3000
}

/// Whether a character has the Unicode `White_Space` property, as
/// `char::is_whitespace` decides it.
pub open spec fn unicode_whitespace(c: char) -> bool {
    whitespace_code(c as u32)
}

/// Whether `c` is a whitespace character.
pub fn is_space(c: char) -> (r: bool)
    ensures
        r == unicode_whitespace(c),
{
    let u = c as u32;
    (0x9 <= u && u <= 0xD) || u == 0x20 || u == 0x85 || u == 0xA0 || u == 0x1680 || (0x2000 <= u
        && u <= 0x200A) || u == 0x2028 || u == 0x2029 || u == 0x202F || u == 0x205F || u == 0x3000
}

/// Relies on `String`'s `FromIterator<&char>`: the string holds the given
/// characters in order.
#[verifier::external_body]
pub(crate) fn string_of_chars(v: &Vec<char>) -> (r: String)
    ensures
        r@ == v@,
{
    v.iter().collect::<String>()
}

/// The characters of a string, in order.
pub fn chars_of(s: &str) -> (r: Vec<char>)
    ensures
        r@ == s@,
{
    let n = s.unicode_len();
    let mut out: Vec<char> = Vec::new();
    let mut i: usize = 0;
    while i < n
        invariant
            n == s@.len(),
            i <= n,
            out@ == s@.take(i as int),
        decreases n - i,
    {
        let c = s.get_char(i);
        out.push(c);
        assert(s@.take(i as int + 1) =~= s@.take(i as int).push(c));
        i = i + 1;
    }
    assert(s@.take(n as int) =~= s@);
    out
}

/// `c` occurs somewhere in `l`.
pub open spec fn has_char(l: Seq<char>, c: char) -> bool {
    exists|i: int| 0 <= i < l.len() && l[i] == c
}

/// `t` occurs in `l` as a contiguous run (the empty run occurs everywhere).
pub open spec fn has_run(l: Seq<char>, t: Seq<char>) -> bool {
    exists|i: int| 0 <= i && i + t.len() <= l.len() && #[trigger] l.subrange(i, i + t.len()) == t
}

/// Position of the first occurrence of `c` in `l`.
pub open spec fn first_index(l: Seq<char>, c: char) -> Option<int>
    decreases l.len(),
{
    if l.len() == 0 {
        None
    } else if l[0] == c {
        Some(0)
    } else {
        match first_index(l.drop_first(), c) {
            Some(k) => Some(k + 1),
            None => None,
        }
    }
}

/// `l` with leading whitespace removed.
pub open spec fn trim_start(l: Seq<char>) -> Seq<char>
    decreases l.len(),
{
    if l.len() > 0 && unicode_whitespace(l[0]) {
        trim_start(l.drop_first())
    } else {
        l
    }
}

/// `l` with trailing whitespace removed.
pub open spec fn trim_end(l: Seq<char>) -> Seq<char>
    decreases l.len(),
{
    if l.len() > 0 && unicode_whitespace(l.last()) {
        trim_end(l.drop_last())
    } else {
        l
    }
}

/// `l` with whitespace removed at both ends.
pub open spec fn trim(l: Seq<char>) -> Seq<char> {
    trim_end(trim_start(l))
}

proof fn lemma_first_index(l: Seq<char>, c: char, i: int)
    requires
        0 <= i <= l.len(),
        forall|j: int| 0 <= j < i ==> l[j] != c,
    ensures
        i < l.len() && l[i] == c ==> first_index(l, c) == Some(i),
        i == l.len() ==> first_index(l, c) is None,
    decreases i,
{
    if i > 0 {
        let d = l.drop_first();
        assert forall|j: int| 0 <= j < i - 1 implies d[j] != c by {
            assert(d[j] == l[j + 1]);
        }
        lemma_first_index(d, c, i - 1);
    }
}

proof fn lemma_trim_start_len(l: Seq<char>)
    ensures
        trim_start(l).len() <= l.len(),
    decreases l.len(),
{
    if l.len() > 0 && unicode_whitespace(l[0]) {
        lemma_trim_start_len(l.drop_first());
    }
}

proof fn lemma_trim_end_len(l: Seq<char>)
    ensures
        trim_end(l).len() <= l.len(),
    decreases l.len(),
{
    if l.len() > 0 && unicode_whitespace(l.last()) {
        lemma_trim_end_len(l.drop_last());
    }
}

/// Trimming never lengthens a line.
pub proof fn lemma_trim_len(l: Seq<char>)
    ensures
        trim(l).len() <= l.len(),
{
    lemma_trim_start_len(l);
    lemma_trim_end_len(trim_start(l));
}

/// The first index of `c`, when there is one, lies in `l` and holds `c`.
pub proof fn lemma_first_index_bound(l: Seq<char>, c: char)
    ensures
        first_index(l, c) matches Some(i) ==> 0 <= i < l.len() && l[i] == c,
    decreases l.len(),
{
    if l.len() > 0 && l[0] != c {
        lemma_first_index_bound(l.drop_first(), c);
    }
}

/// Index of the first `c` in `l`, or `l.len()` when there is none.
pub fn find_char(l: &Vec<char>, c: char) -> (r: usize)
    ensures
        r <= l@.len(),
        r < l@.len() ==> first_index(l@, c) == Some(r as int),
        r == l@.len() ==> first_index(l@, c) is None,
{
    let mut i: usize = 0;
    while i < l.len()
        invariant
            i <= l@.len(),
            forall|j: int| 0 <= j < i ==> l@[j] != c,
        decreases l@.len() - i,
    {
        if l[i] == c {
            proof {
                lemma_first_index(l@, c, i as int);
            }
            return i;
        }
        i = i + 1;
    }
    proof {
        lemma_first_index(l@, c, i as int);
    }
    i
}

/// Whether `c` occurs in `l`.
pub fn contains_char(l: &Vec<char>, c: char) -> (r: bool)
    ensures
        r == has_char(l@, c),
{
    let mut i: usize = 0;
    while i < l.len()
        invariant
            i <= l@.len(),
            forall|j: int| 0 <= j < i ==> l@[j] != c,
        decreases l@.len() - i,
    {
        if l[i] == c {
            return true;
        }
        i = i + 1;
    }
    false
}

fn run_at(l: &Vec<char>, t: &Vec<char>, i: usize) -> (r: bool)
    requires
        i + t@.len() <= l@.len(),
    ensures
        r == (l@.subrange(i as int, i + t@.len()) == t@),
{
    let n = l.len();
    let mut j: usize = 0;
    while j < t.len()
        invariant
            n == l@.len(),
            i + t@.len() <= l@.len(),
            j <= t@.len(),
            forall|m: int| 0 <= m < j ==> l@[i + m] == t@[m],
        decreases t@.len() - j,
    {
        if l[i + j] != t[j] {
            assert(l@.subrange(i as int, i + t@.len())[j as int] != t@[j as int]);
            return false;
        }
        j = j + 1;
    }
    assert(l@.subrange(i as int, i + t@.len()) =~= t@);
    true
}

/// Whether `t` occurs in `l` as a contiguous run.
pub fn contains_run(l: &Vec<char>, t: &Vec<char>) -> (r: bool)
    ensures
        r == has_run(l@, t@),
{
    if t.len() > l.len() {
        return false;
    }
    let last = l.len() - t.len();
    let mut i: usize = 0;
    loop
        invariant
            last == l@.len() - t@.len(),
            i <= last,
            forall|k: int| 0 <= k < i ==> #[trigger] l@.subrange(k, k + t@.len()) != t@,
        decreases last - i,
    {
        if run_at(l, t, i) {
            return true;
        }
        if i == last {
            return false;
        }
        i = i + 1;
    }
}

/// `l` with whitespace removed at both ends.
pub fn trimmed(l: &Vec<char>) -> (r: Vec<char>)
    ensures
        r@ == trim(l@),
{
    let n = l.len();
    let mut a: usize = 0;
    assert(l@.subrange(0, n as int) =~= l@);
    while a < n && is_space(l[a])
        invariant
            n == l@.len(),
            a <= n,
            trim_start(l@) == trim_start(l@.subrange(a as int, n as int)),
        decreases n - a,
    {
        assert(l@.subrange(a as int, n as int).drop_first() =~= l@.subrange(a + 1, n as int));
        a = a + 1;
    }
    let mut b: usize = n;
    while b > a && is_space(l[b - 1])
        invariant
            n == l@.len(),
            a <= b <= n,
            trim_start(l@) == l@.subrange(a as int, n as int),
            trim(l@) == trim_end(l@.subrange(a as int, b as int)),
        decreases b - a,
    {
        assert(l@.subrange(a as int, b as int).drop_last() =~= l@.subrange(a as int, b - 1));
        b = b - 1;
    }
    let mut out: Vec<char> = Vec::new();
    let mut k: usize = a;
    while k < b
        invariant
            a <= k <= b <= n,
            n == l@.len(),
            out@ == l@.subrange(a as int, k as int),
        decreases b - k,
    {
        out.push(l[k]);
        assert(l@.subrange(a as int, k + 1) =~= l@.subrange(a as int, k as int).push(l@[k as int]));
        k = k + 1;
    }
    out
}

} // verus!
