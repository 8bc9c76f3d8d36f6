//! Line-text handling: whitespace trimming, the reserved shutdown keywords,
//! and the sentinel payload that signals graceful shutdown through the data
//! channel.

use vstd::prelude::*;
use vstd::string::StrSliceExecFns;

verus! {

/// A whitespace character as line input is trimmed: space, tab, line feed,
/// carriage return, or form feed.
pub open spec fn is_space(c: char) -> bool {
    c == ' ' || c == '\t' || c == '\n' || c == '\r' || c == '\x0c'
}

fn space_char(c: char) -> (r: bool)
    ensures
        r == is_space(c),
{
    c == ' ' || c == '\t' || c == '\n' || c == '\r' || c == '\x0c'
}

/// The sequence with its leading whitespace removed.
pub open spec fn trim_front(s: Seq<char>) -> Seq<char>
    decreases s.len(),
{
    if s.len() > 0 && is_space(s[0]) {
        trim_front(s.drop_first())
    } else {
        s
    }
}

/// The sequence with its trailing whitespace removed.
pub open spec fn trim_back(s: Seq<char>) -> Seq<char>
    decreases s.len(),
{
    if s.len() > 0 && is_space(s.last()) {
        trim_back(s.drop_last())
    } else {
        s
    }
}

/// The sequence with surrounding whitespace removed.
pub open spec fn trim_spec(s: Seq<char>) -> Seq<char> {
    trim_back(trim_front(s))
}

proof fn lemma_trim_front_skip(s: Seq<char>, i: int)
    requires
        0 <= i <= s.len(),
        forall|k: int| 0 <= k < i ==> is_space(s[k]),
        i == s.len() || !is_space(s[i]),
    ensures
        trim_front(s) == s.skip(i),
    decreases i,
{
    if i == 0 {
        assert(s.skip(0) =~= s);
    } else {
        let t = s.drop_first();
        lemma_trim_front_skip(t, i - 1);
        assert(t.skip(i - 1) =~= s.skip(i));
    }
}

proof fn lemma_trim_back_take(s: Seq<char>, j: int)
    requires
        0 <= j <= s.len(),
        forall|k: int| j <= k < s.len() ==> is_space(s[k]),
        j == 0 || !is_space(s[j - 1]),
    ensures
        trim_back(s) == s.take(j),
    decreases s.len() - j,
{
    if j == s.len() {
        assert(s.take(j) =~= s);
    } else {
        let t = s.drop_last();
        lemma_trim_back_take(t, j);
        assert(t.take(j) =~= s.take(j));
    }
}

/// Returns `line` with surrounding whitespace removed.
pub fn trim_text(line: &str) -> (r: String)
    ensures
        r@ == trim_spec(line@),
{
    let n = line.unicode_len();
    let mut i: usize = 0;
    while i < n && space_char(line.get_char(i))
        invariant
            0 <= i <= n,
            n == line@.len(),
            forall|k: int| 0 <= k < i ==> is_space(line@[k]),
        decreases n - i,
    {
        i = i + 1;
    }
    if i == n {
        proof {
            lemma_trim_front_skip(line@, n as int);
            assert(line@.skip(n as int) =~= Seq::<char>::empty());
        }
        return String::new();
    }
    let mut j: usize = n;
    while space_char(line.get_char(j - 1))
        invariant
            i < j <= n,
            n == line@.len(),
            !is_space(line@[i as int]),
            forall|k: int| j <= k < n ==> is_space(line@[k]),
        decreases j,
    {
        j = j - 1;
    }
    let core = line.substring_char(i, j);
    proof {
        lemma_trim_front_skip(line@, i as int);
        lemma_trim_back_take(line@.skip(i as int), j - i);
        assert(line@.skip(i as int).take(j - i) =~= line@.subrange(i as int, j as int));
    }
    core.to_owned()
}

/// Case-insensitive match of one character against its two ASCII cases.
pub open spec fn eq_ci(c: char, lower: char, upper: char) -> bool {
    c == lower || c == upper
}

/// Whether a trimmed line is one of the reserved shutdown keywords,
/// `exit` or `quit`, in any ASCII case.
pub open spec fn is_exit_word(s: Seq<char>) -> bool {
    s.len() == 4 && ((eq_ci(s[0], 'e', 'E') && eq_ci(s[1], 'x', 'X') && eq_ci(s[2], 'i', 'I')
        && eq_ci(s[3], 't', 'T')) || (eq_ci(s[0], 'q', 'Q') && eq_ci(s[1], 'u', 'U') && eq_ci(
        s[2],
        'i',
        'I',
    ) && eq_ci(s[3], 't', 'T')))
}

/// Decides whether `s` is a shutdown keyword (`exit` or `quit`, any case).
pub fn is_exit_command(s: &str) -> (r: bool)
    ensures
        r == is_exit_word(s@),
{
    let n = s.unicode_len();
    if n != 4 {
        return false;
    }
    let c0 = s.get_char(0);
    let c1 = s.get_char(1);
    let c2 = s.get_char(2);
    let c3 = s.get_char(3);
    ((c0 == 'e' || c0 == 'E') && (c1 == 'x' || c1 == 'X') && (c2 == 'i' || c2 == 'I') && (c3 == 't'
        || c3 == 'T')) || ((c0 == 'q' || c0 == 'Q') && (c1 == 'u' || c1 == 'U') && (c2 == 'i' || c2
        == 'I') && (c3 == 't' || c3 == 'T'))
}

/// The reserved payload that signals graceful shutdown through the channel.
pub open spec fn sentinel() -> Seq<char> {
    "USER_BREAK_$0uU"@
}

/// The sentinel payload as an owned message.
pub fn sentinel_text() -> (r: String)
    ensures
        r@ == sentinel(),
{
    "USER_BREAK_$0uU".to_owned()
}

/// Decides whether a received message is the shutdown sentinel.
pub fn is_sentinel(m: &String) -> (r: bool)
    ensures
        r == (m@ == sentinel()),
{
    let s = sentinel_text();
    *m == s
}

} // verus!
