use vstd::prelude::*;

verus! {

// Sequence-level model of the line-oriented manifest text: comment
// stripping, whitespace trimming and line splitting, each as a spec
// function beside the exec function that implements it.

/// Whitespace recognised when trimming a line: the Unicode white-space
/// characters, the set `str::trim` removes.
pub open spec fn is_space_char(c: char) -> bool {
    let u = c as u32;
    u == 0x9 || u == 0xA || u == 0xB || u == 0xC || u == 0xD || u == 0x20 || u == 0x85 || u == 0xA0
        || u == 0x1680 || (0x2000 <= u && u <= 0x200A) || u == 0x2028 || u == 0x2029 || u == 0x202F
        || u == 0x205F || u == 0x3000
}

pub fn exec_is_space(c: char) -> (b: bool)
    ensures
        b == is_space_char(c),
{
    let u = c as u32;
    u == 0x9 || u == 0xA || u == 0xB || u == 0xC || u == 0xD || u == 0x20 || u == 0x85 || u == 0xA0
        || u == 0x1680 || (0x2000 <= u && u <= 0x200A) || u == 0x2028 || u == 0x2029 || u == 0x202F
        || u == 0x205F || u == 0x3000
}

/// A character allowed inside a hostname scope: ASCII alphanumeric or hyphen.
pub open spec fn is_host_char(c: char) -> bool {
    let u = c as u32;
    ('a' as u32 <= u && u <= 'z' as u32) || ('A' as u32 <= u && u <= 'Z' as u32) || ('0' as u32
        <= u && u <= '9' as u32) || c == '-'
}

pub fn exec_is_host_char(c: char) -> (b: bool)
    ensures
        b == is_host_char(c),
{
    let u = c as u32;
    ('a' as u32 <= u && u <= 'z' as u32) || ('A' as u32 <= u && u <= 'Z' as u32) || ('0' as u32
        <= u && u <= '9' as u32) || c == '-'
}

/// Everything before the first `//`; the whole line when no `//` occurs.
pub open spec fn strip_comment(s: Seq<char>) -> Seq<char>
    decreases s.len(),
{
    if s.len() >= 2 && s[0] == '/' && s[1] == '/' {
        Seq::empty()
    } else if s.len() == 0 {
        s
    } else {
        seq![s[0]] + strip_comment(s.skip(1))
    }
}

/// There is no comment marker at any position of `s` strictly before `i`.
pub open spec fn no_marker_before(s: Seq<char>, i: int) -> bool {
    forall|j: int| 0 <= j < i && j + 1 < s.len() ==> !(#[trigger] s[j] == '/' && s[j + 1] == '/')
}

proof fn lemma_strip_comment_found(s: Seq<char>, i: int)
    requires
        0 <= i,
        i + 1 < s.len(),
        no_marker_before(s, i),
        s[i] == '/' && s[i + 1] == '/',
    ensures
        strip_comment(s) == s.take(i),
    decreases i,
{
    if i == 0 {
        assert(strip_comment(s) =~= s.take(0));
    } else {
        assert(!(s[0] == '/' && s[1] == '/'));
        lemma_strip_comment_found(s.skip(1), i - 1);
        assert(seq![s[0]] + s.skip(1).take(i - 1) =~= s.take(i));
    }
}

proof fn lemma_strip_comment_absent(s: Seq<char>)
    requires
        no_marker_before(s, s.len() as int),
    ensures
        strip_comment(s) == s,
    decreases s.len(),
{
    if s.len() == 0 {
    } else if s.len() == 1 {
        assert(seq![s[0]] + strip_comment(s.skip(1)) =~= s);
    } else {
        assert(!(s[0] == '/' && s[1] == '/'));
        lemma_strip_comment_absent(s.skip(1));
        assert(seq![s[0]] + s.skip(1) =~= s);
    }
}

/// Public form of the identity fact, used by the round-trip argument: a
/// line without a comment marker survives comment stripping unchanged.
pub proof fn lemma_strip_comment_id(s: Seq<char>)
    requires
        no_marker_before(s, s.len() as int),
    ensures
        strip_comment(s) == s,
{
    lemma_strip_comment_absent(s);
}

pub fn exec_strip_comment<'a>(s: &'a str) -> (r: &'a str)
    ensures
        r@ == strip_comment(s@),
{
    let n = s.unicode_len();
    let mut i: usize = 0;
    while i < n && i + 1 < n
        invariant
            n == s@.len(),
            i <= n,
            no_marker_before(s@, i as int),
        decreases n - i,
    {
        if s.get_char(i) == '/' && s.get_char(i + 1) == '/' {
            proof {
                lemma_strip_comment_found(s@, i as int);
            }
            return s.substring_char(0, i);
        }
        i += 1;
    }
    proof {
        lemma_strip_comment_absent(s@);
    }
    s
}

/// `s` without leading whitespace.
pub open spec fn trim_start(s: Seq<char>) -> Seq<char>
    decreases s.len(),
{
    if s.len() > 0 && is_space_char(s[0]) {
        trim_start(s.skip(1))
    } else {
        s
    }
}

/// `s` without trailing whitespace.
pub open spec fn trim_end(s: Seq<char>) -> Seq<char>
    decreases s.len(),
{
    if s.len() > 0 && is_space_char(s.last()) {
        trim_end(s.drop_last())
    } else {
        s
    }
}

/// `s` without leading and trailing whitespace.
pub open spec fn trimmed(s: Seq<char>) -> Seq<char> {
    trim_end(trim_start(s))
}

proof fn lemma_trim_start_at(s: Seq<char>, lo: int)
    requires
        0 <= lo <= s.len(),
        forall|j: int| 0 <= j < lo ==> is_space_char(s[j]),
        lo < s.len() ==> !is_space_char(s[lo]),
    ensures
        trim_start(s) == s.skip(lo),
    decreases lo,
{
    if lo == 0 {
        assert(s.skip(0) =~= s);
    } else {
        lemma_trim_start_at(s.skip(1), lo - 1);
        assert(s.skip(1).skip(lo - 1) =~= s.skip(lo));
    }
}

proof fn lemma_trim_end_at(s: Seq<char>, hi: int)
    requires
        0 <= hi <= s.len(),
        forall|j: int| hi <= j < s.len() ==> is_space_char(s[j]),
        hi > 0 ==> !is_space_char(s[hi - 1]),
    ensures
        trim_end(s) == s.take(hi),
    decreases s.len() - hi,
{
    if hi == s.len() {
        assert(s.take(hi) =~= s);
    } else {
        lemma_trim_end_at(s.drop_last(), hi);
        assert(s.drop_last().take(hi) =~= s.take(hi));
    }
}

/// A string with no whitespace at either end trims to itself.
pub proof fn lemma_trimmed_id(s: Seq<char>)
    requires
        s.len() == 0 || (!is_space_char(s[0]) && !is_space_char(s[s.len() - 1])),
    ensures
        trimmed(s) == s,
{
    assert(trim_start(s) == s);
    assert(trim_end(s) == s);
}

pub fn exec_trim<'a>(s: &'a str) -> (r: &'a str)
    ensures
        r@ == trimmed(s@),
{
    let n = s.unicode_len();
    let mut lo: usize = 0;
    while lo < n && exec_is_space(s.get_char(lo))
        invariant
            n == s@.len(),
            lo <= n,
            forall|j: int| 0 <= j < lo ==> is_space_char(s@[j]),
        decreases n - lo,
    {
        lo += 1;
    }
    let mut hi: usize = n;
    while hi > lo && exec_is_space(s.get_char(hi - 1))
        invariant
            n == s@.len(),
            lo <= hi <= n,
            forall|j: int| hi <= j < n ==> is_space_char(s@[j]),
        decreases hi,
    {
        hi -= 1;
    }
    proof {
        lemma_trim_start_at(s@, lo as int);
        let t = s@.skip(lo as int);
        lemma_trim_end_at(t, hi - lo);
        assert(t.take(hi - lo) =~= s@.subrange(lo as int, hi as int));
    }
    s.substring_char(lo, hi)
}

/// Character-by-character string comparison, meaning equality of the
/// views.
pub fn str_eq(a: &str, b: &str) -> (r: bool)
    ensures
        r == (a@ == b@),
{
    let na = a.unicode_len();
    let nb = b.unicode_len();
    if na != nb {
        return false;
    }
    let mut i: usize = 0;
    while i < na
        invariant
            na == a@.len(),
            na == b@.len(),
            i <= na,
            forall|j: int| 0 <= j < i ==> a@[j] == b@[j],
        decreases na - i,
    {
        if a.get_char(i) != b.get_char(i) {
            return false;
        }
        i += 1;
    }
    proof {
        assert(a@ =~= b@);
    }
    true
}

/// Number of characters before the first newline (the whole length when
/// `s` holds none).
pub open spec fn line_break(s: Seq<char>) -> nat
    decreases s.len(),
{
    if s.len() == 0 {
        0
    } else if s[0] == '\n' {
        0
    } else {
        (1 + line_break(s.skip(1))) as nat
    }
}

proof fn lemma_line_break_at(s: Seq<char>, i: int)
    requires
        0 <= i <= s.len(),
        forall|j: int| 0 <= j < i ==> s[j] != '\n',
        i < s.len() ==> s[i] == '\n',
    ensures
        line_break(s) == i,
    decreases i,
{
    if i == 0 {
        if s.len() > 0 {
        }
    } else {
        lemma_line_break_at(s.skip(1), i - 1);
    }
}

/// A line with one trailing carriage return removed.
pub open spec fn chop_cr(s: Seq<char>) -> Seq<char> {
    if s.len() > 0 && s.last() == '\r' {
        s.drop_last()
    } else {
        s
    }
}

/// The lines of `s`, split at `\n`, with a `\r` just before each `\n`
/// removed; a final line without a terminator is kept whole, and a
/// terminator on the last line adds no empty line after it.
pub open spec fn split_lines(s: Seq<char>) -> Seq<Seq<char>>
    decreases s.len(),
{
    if s.len() == 0 {
        Seq::empty()
    } else {
        let i = line_break(s) as int;
        if i >= s.len() {
            seq![s]
        } else {
            seq![chop_cr(s.take(i))] + split_lines(s.skip(i + 1))
        }
    }
}

/// How one step of the splitter relates a scan result to the suffix:
/// the first line covers `s` up to position `i` (a newline or the end).
pub proof fn lemma_split_first(s: Seq<char>, i: int)
    requires
        s.len() > 0,
        0 <= i <= s.len(),
        forall|j: int| 0 <= j < i ==> s[j] != '\n',
        i < s.len() ==> s[i] == '\n',
    ensures
        i == s.len() ==> split_lines(s) == seq![s],
        i < s.len() ==> split_lines(s) == seq![chop_cr(s.take(i))] + split_lines(s.skip(i + 1)),
{
    lemma_line_break_at(s, i);
}

/// The lines of a text glued back together, each with a terminator.
pub open spec fn join_lines(xs: Seq<Seq<char>>) -> Seq<char>
    decreases xs.len(),
{
    if xs.len() == 0 {
        Seq::empty()
    } else {
        xs.first() + seq!['\n'] + join_lines(xs.skip(1))
    }
}

/// Joining distributes over concatenation of line sequences.
pub proof fn lemma_join_append(a: Seq<Seq<char>>, b: Seq<Seq<char>>)
    ensures
        join_lines(a + b) == join_lines(a) + join_lines(b),
    decreases a.len(),
{
    if a.len() == 0 {
        assert(a + b =~= b);
        assert(join_lines(a) + join_lines(b) =~= join_lines(b));
    } else {
        assert((a + b).first() == a.first());
        assert((a + b).skip(1) =~= a.skip(1) + b);
        lemma_join_append(a.skip(1), b);
        assert(a.first() + seq!['\n'] + (join_lines(a.skip(1)) + join_lines(b)) =~= (a.first()
            + seq!['\n'] + join_lines(a.skip(1))) + join_lines(b));
    }
}

/// Joining lines and splitting the result gives the lines back, as long
/// as no line holds a newline or ends in a carriage return.
pub proof fn lemma_split_join(xs: Seq<Seq<char>>)
    requires
        forall|k: int, j: int|
            0 <= k < xs.len() && 0 <= j < xs[k].len() ==> #[trigger] xs[k][j] != '\n',
        forall|k: int| 0 <= k < xs.len() ==> chop_cr(#[trigger] xs[k]) == xs[k],
    ensures
        split_lines(join_lines(xs)) == xs,
    decreases xs.len(),
{
    if xs.len() == 0 {
    } else {
        let first = xs.first();
        let rest = join_lines(xs.skip(1));
        let t = first + seq!['\n'] + rest;
        assert(t.len() > 0);
        assert forall|j: int| 0 <= j < first.len() implies t[j] != '\n' by {
            assert(t[j] == xs[0][j]);
        }
        assert(t[first.len() as int] == '\n');
        lemma_split_first(t, first.len() as int);
        assert(t.take(first.len() as int) =~= first);
        assert(t.skip(first.len() as int + 1) =~= rest);
        lemma_split_join(xs.skip(1));
        assert(seq![chop_cr(first)] + xs.skip(1) =~= xs);
    }
}

} // verus!
