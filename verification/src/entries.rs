//! Reading launch entries out of a line-oriented source.
//!
//! One entry per line: blank lines and `#` comments are skipped; fields
//! are separated by `;`, the first being the URL and the second an
//! optional browser override, both trimmed; later fields are ignored.

use vstd::prelude::*;

verus! {

/// One requested URL launch.
pub struct Entry {
    /// The literal contents of the line's first field, trimmed.
    pub url: String,
    /// The line's second field, trimmed; absent when the line has none.
    pub browser: Option<String>,
}

/// The mathematical value of an [`Entry`].
pub ghost struct EntryModel {
    pub url: Seq<char>,
    pub browser: Option<Seq<char>>,
}

impl View for Entry {
    type V = EntryModel;

    open spec fn view(&self) -> EntryModel {
        EntryModel {
            url: self.url@,
            browser: match self.browser {
                Some(b) => Some(b@),
                None => None,
            },
        }
    }
}

impl Clone for Entry {
    /// A clone carries the same URL and override.
    fn clone(&self) -> (e: Entry)
        ensures
            e@ == self@,
    {
        Entry {
            url: self.url.clone(),
            browser: match &self.browser {
                Some(b) => Some(b.clone()),
                None => None,
            },
        }
    }
}

/// An ASCII whitespace character; trimming strips these from both ends.
pub open spec fn is_space_char(c: char) -> bool {
    c == ' ' || c == '\t' || c == '\r' || c == '\n'
}

/// The sequence without its leading whitespace.
pub open spec fn spec_trim_front(s: Seq<char>) -> Seq<char>
    decreases s.len(),
{
    if s.len() > 0 && is_space_char(s[0]) {
        spec_trim_front(s.drop_first())
    } else {
        s
    }
}

/// The sequence without its trailing whitespace.
pub open spec fn spec_trim_back(s: Seq<char>) -> Seq<char>
    decreases s.len(),
{
    if s.len() > 0 && is_space_char(s.last()) {
        spec_trim_back(s.drop_last())
    } else {
        s
    }
}

/// The sequence without surrounding whitespace.
pub open spec fn spec_trim(s: Seq<char>) -> Seq<char> {
    spec_trim_back(spec_trim_front(s))
}

/// Trimming the front keeps a suffix: the part from the first non-space on.
proof fn lemma_trim_front_shape(s: Seq<char>)
    ensures
        spec_trim_front(s) =~= s.subrange(
            s.len() - spec_trim_front(s).len(),
            s.len() as int,
        ),
        spec_trim_front(s).len() <= s.len(),
        forall|j: int| 0 <= j < s.len() - spec_trim_front(s).len() ==> is_space_char(
            #[trigger] s[j],
        ),
        spec_trim_front(s).len() > 0 ==> !is_space_char(s[s.len() - spec_trim_front(s).len()]),
    decreases s.len(),
{
    if s.len() > 0 && is_space_char(s[0]) {
        lemma_trim_front_shape(s.drop_first());
        assert forall|j: int| 1 <= j < s.len() implies s[j] == s.drop_first()[j - 1] by {}
    }
}

/// Trimming the back keeps a prefix: the part up to the last non-space.
proof fn lemma_trim_back_shape(s: Seq<char>)
    ensures
        spec_trim_back(s) =~= s.subrange(0, spec_trim_back(s).len() as int),
        spec_trim_back(s).len() <= s.len(),
        forall|j: int| spec_trim_back(s).len() <= j < s.len() ==> is_space_char(#[trigger] s[j]),
        spec_trim_back(s).len() > 0 ==> !is_space_char(s[spec_trim_back(s).len() - 1]),
    decreases s.len(),
{
    if s.len() > 0 && is_space_char(s.last()) {
        lemma_trim_back_shape(s.drop_last());
        assert forall|j: int| 0 <= j < s.len() - 1 implies s.drop_last()[j] == s[j] by {}
    }
}

/// Whether this character is trimmed away from either end.
fn is_space(c: char) -> (b: bool)
    ensures
        b == is_space_char(c),
{
    c == ' ' || c == '\t' || c == '\r' || c == '\n'
}

/// The argument without surrounding whitespace.
pub fn trim(s: &str) -> (r: &str)
    ensures
        r@ == spec_trim(s@),
{
    let len = s.unicode_len();
    let mut lo: usize = 0;
    while lo < len && is_space(s.get_char(lo))
        invariant
            lo <= len == s@.len(),
            forall|j: int| 0 <= j < lo ==> is_space_char(#[trigger] s@[j]),
        decreases len - lo,
    {
        lo = lo + 1;
    }
    let mut hi: usize = len;
    while hi > lo && is_space(s.get_char(hi - 1))
        invariant
            lo <= hi <= len == s@.len(),
            forall|j: int| 0 <= j < lo ==> is_space_char(#[trigger] s@[j]),
            forall|j: int| hi <= j < s@.len() ==> is_space_char(#[trigger] s@[j]),
        decreases hi,
    {
        hi = hi - 1;
    }
    proof {
        lemma_trim_front_shape(s@);
        let front = spec_trim_front(s@);
        assert(front.len() == s@.len() - lo) by {
            if front.len() > s@.len() - lo {
                assert(is_space_char(s@[s@.len() - front.len()]));
            }
            if front.len() < s@.len() - lo {
                assert(is_space_char(s@[lo as int]) || lo == s@.len());
                if lo < s@.len() {
                    assert(!is_space_char(s@[lo as int]));
                }
            }
        }
        lemma_trim_back_shape(front);
        let out = spec_trim_back(front);
        assert forall|j: int| 0 <= j < front.len() implies front[j] == s@[lo + j] by {}
        assert(out.len() == hi - lo) by {
            if out.len() > hi - lo {
                assert(is_space_char(front[(hi - lo) as int]));
                assert(front[(hi - lo) as int] == s@[hi as int]);
                if hi < s@.len() {
                } else {
                    assert(false);
                }
            }
            if out.len() < hi - lo {
                assert(!is_space_char(front[(hi - lo - 1) as int]) || hi == lo);
                assert(is_space_char(front[out.len() as int]) || front.len() == out.len());
            }
        }
        assert(spec_trim(s@) =~= s@.subrange(lo as int, hi as int));
    }
    s.substring_char(lo, hi)
}

/// The index of the first occurrence of `c`, if any.
pub open spec fn spec_find_char(s: Seq<char>, c: char) -> Option<int>
    decreases s.len(),
{
    if s.len() == 0 {
        None
    } else if s[0] == c {
        Some(0)
    } else {
        match spec_find_char(s.drop_first(), c) {
            Some(i) => Some(i + 1),
            None => None,
        }
    }
}

/// `spec_find_char` returns the least index holding `c`, or `None` when
/// `c` does not occur.
proof fn lemma_find_char_spec(s: Seq<char>, c: char)
    ensures
        match spec_find_char(s, c) {
            Some(i) => 0 <= i < s.len() && s[i] == c && (forall|j: int|
                0 <= j < i ==> s[j] != c),
            None => forall|j: int| 0 <= j < s.len() ==> s[j] != c,
        },
    decreases s.len(),
{
    if s.len() == 0 {
    } else if s[0] == c {
    } else {
        lemma_find_char_spec(s.drop_first(), c);
        assert forall|j: int| 1 <= j < s.len() implies s[j] == s.drop_first()[j - 1] by {}
    }
}

/// The character index of the first occurrence of `c`, if any.
fn find_char(s: &str, c: char) -> (r: Option<usize>)
    ensures
        match r {
            Some(i) => spec_find_char(s@, c) == Some(i as int) && i < s@.len() && s@[i as int]
                == c,
            None => spec_find_char(s@, c) is None,
        },
{
    let len = s.unicode_len();
    let mut i: usize = 0;
    while i < len
        invariant
            i <= len == s@.len(),
            forall|j: int| 0 <= j < i ==> s@[j] != c,
        decreases len - i,
    {
        if s.get_char(i) == c {
            proof {
                lemma_find_char_spec(s@, c);
            }
            return Some(i);
        }
        i = i + 1;
    }
    proof {
        lemma_find_char_spec(s@, c);
    }
    None
}

/// A line the reader skips: empty, or a `#` comment.
pub open spec fn spec_skip_line(line: Seq<char>) -> bool {
    line.len() == 0 || line[0] == '#'
}

/// The entry a non-skipped line denotes: the first `;`-separated field,
/// trimmed, as the URL; the second, trimmed, as the browser override;
/// later fields ignored. A line without `;` has no override.
pub open spec fn spec_parse_line(line: Seq<char>) -> EntryModel {
    match spec_find_char(line, ';') {
        None => EntryModel { url: spec_trim(line), browser: None },
        Some(i) => {
            let rest = line.subrange(i + 1, line.len() as int);
            let second = match spec_find_char(rest, ';') {
                None => rest,
                Some(j) => rest.subrange(0, j),
            };
            EntryModel { url: spec_trim(line.subrange(0, i)), browser: Some(spec_trim(second)) }
        },
    }
}

/// The entries a whole source denotes: each non-skipped line's entry, in
/// line order.
pub open spec fn spec_read_entries(lines: Seq<Seq<char>>) -> Seq<EntryModel>
    decreases lines.len(),
{
    if lines.len() == 0 {
        Seq::empty()
    } else {
        let init = spec_read_entries(lines.drop_last());
        if spec_skip_line(lines.last()) {
            init
        } else {
            init.push(spec_parse_line(lines.last()))
        }
    }
}

/// The views of a vector of entries.
pub open spec fn entries_view(entries: Seq<Entry>) -> Seq<EntryModel> {
    entries.map_values(|e: Entry| e@)
}

/// The views of a vector of lines.
pub open spec fn lines_view(lines: Seq<String>) -> Seq<Seq<char>> {
    lines.map_values(|l: String| l@)
}

/// Parse one non-skipped line into an entry.
fn parse_line(line: &str) -> (e: Entry)
    ensures
        e@ == spec_parse_line(line@),
{
    let len = line.unicode_len();
    match find_char(line, ';') {
        None => Entry { url: String::from_str(trim(line)), browser: None },
        Some(i) => {
            let url = String::from_str(trim(line.substring_char(0, i)));
            let rest = line.substring_char(i + 1, len);
            let second = match find_char(rest, ';') {
                None => rest,
                Some(j) => rest.substring_char(0, j),
            };
            let browser = Some(String::from_str(trim(second)));
            Entry { url, browser }
        },
    }
}

/// Read the entries out of the source's lines, in order: blank lines and
/// `#` comments are skipped, every other line yields exactly one entry.
pub fn read_entries(lines: &Vec<String>) -> (entries: Vec<Entry>)
    ensures
        entries_view(entries@) == spec_read_entries(lines_view(lines@)),
{
    let mut entries: Vec<Entry> = Vec::new();
    let n = lines.len();
    let mut i: usize = 0;
    while i < n
        invariant
            i <= n == lines@.len(),
            entries_view(entries@) =~= spec_read_entries(lines_view(lines@).take(i as int)),
        decreases n - i,
    {
        let line = &lines[i];
        let skip = line.as_str().is_empty() || line.as_str().get_char(0) == '#';
        if !skip {
            let e = parse_line(line.as_str());
            entries.push(e);
        }
        proof {
            assert(lines_view(lines@).take(i + 1).drop_last() =~= lines_view(lines@).take(
                i as int,
            ));
            assert(lines_view(lines@).take(i + 1).last() == lines@[i as int]@);
        }
        i = i + 1;
    }
    proof {
        assert(lines_view(lines@).take(n as int) =~= lines_view(lines@));
    }
    entries
}

/// The reader keeps file order and skips exactly the blank and comment
/// lines: the result is the non-skipped lines, in order, each parsed.
pub proof fn lemma_read_entries_order(lines: Seq<Seq<char>>)
    ensures
        spec_read_entries(lines) =~= lines.filter(|l: Seq<char>| !spec_skip_line(l)).map_values(
            |l: Seq<char>| spec_parse_line(l),
        ),
        spec_read_entries(lines).len() == lines.filter(|l: Seq<char>| !spec_skip_line(l)).len(),
    decreases lines.len(),
{
    reveal(Seq::filter);
    if lines.len() > 0 {
        lemma_read_entries_order(lines.drop_last());
        let kept = lines.filter(|l: Seq<char>| !spec_skip_line(l));
        let kept_init = lines.drop_last().filter(|l: Seq<char>| !spec_skip_line(l));
        if spec_skip_line(lines.last()) {
            assert(kept =~= kept_init);
        } else {
            assert(kept =~= kept_init.push(lines.last()));
        }
    }
}

} // verus!
