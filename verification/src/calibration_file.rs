//! The text format of the tracker-mount calibration file: one `KEY=VALUE`
//! per line, blank lines and `#` comments skipped, surrounding white space
//! ignored, later lines overriding earlier ones.

use vstd::prelude::*;

verus! {

/// Unicode `White_Space`, the property `char::is_whitespace` tests.
pub open spec fn is_space(c: char) -> bool {
    ||| '\u{9}' <= c <= '\u{d}'
    ||| c == ' '
    ||| c == '\u{85}'
    ||| c == '\u{a0}'
    ||| c == '\u{1680}'
    ||| '\u{2000}' <= c <= '\u{200a}'
    ||| c == '\u{2028}'
    ||| c == '\u{2029}'
    ||| c == '\u{202f}'
    ||| c == '\u{205f}'
    ||| c == '\u{3000}'
}

fn is_space_char(c: char) -> (r: bool)
    ensures
        r == is_space(c),
{
    ('\u{9}' <= c && c <= '\u{d}') || c == ' ' || c == '\u{85}' || c == '\u{a0}' || c
        == '\u{1680}' || ('\u{2000}' <= c && c <= '\u{200a}') || c == '\u{2028}' || c
        == '\u{2029}' || c == '\u{202f}' || c == '\u{205f}' || c == '\u{3000}'
}

/// `s` without its leading white space.
pub open spec fn trim_start(s: Seq<char>) -> Seq<char>
    decreases s.len(),
{
    if s.len() > 0 && is_space(s[0]) {
        trim_start(s.drop_first())
    } else {
        s
    }
}

/// `s` without its trailing white space.
pub open spec fn trim_end(s: Seq<char>) -> Seq<char>
    decreases s.len(),
{
    if s.len() > 0 && is_space(s.last()) {
        trim_end(s.drop_last())
    } else {
        s
    }
}

/// `s` without leading and trailing white space, as `str::trim` gives it.
pub open spec fn trimmed(s: Seq<char>) -> Seq<char> {
    trim_end(trim_start(s))
}

pub(crate) fn collect_chars(text: &str) -> (chars: Vec<char>)
    ensures
        chars@ == text@,
{
    let mut chars: Vec<char> = Vec::new();
    for c in it: text.chars()
        invariant
            chars@ == it.seq().take(it.index() as int),
    {
        chars.push(c);
    }
    chars
}

proof fn lemma_trim_start_at(s: Seq<char>, n: int)
    requires
        0 <= n <= s.len(),
        forall|i: int| 0 <= i < n ==> is_space(#[trigger] s[i]),
        n == s.len() || !is_space(s[n]),
    ensures
        trim_start(s) == s.skip(n),
    decreases n,
{
    if n > 0 {
        let t = s.drop_first();
        assert forall|i: int| 0 <= i < n - 1 implies is_space(#[trigger] t[i]) by {
            assert(t[i] == s[i + 1]);
        }
        if n < s.len() {
            assert(t[n - 1] == s[n]);
        }
        lemma_trim_start_at(t, n - 1);
        assert(t.skip(n - 1) =~= s.skip(n));
    } else {
        assert(s.skip(0) =~= s);
    }
}

proof fn lemma_trim_end_at(s: Seq<char>, n: int)
    requires
        0 <= n <= s.len(),
        forall|i: int| n <= i < s.len() ==> is_space(#[trigger] s[i]),
        n == 0 || !is_space(s[n - 1]),
    ensures
        trim_end(s) == s.take(n),
    decreases s.len() - n,
{
    if n < s.len() {
        let t = s.drop_last();
        assert forall|i: int| n <= i < t.len() implies is_space(#[trigger] t[i]) by {
            assert(t[i] == s[i]);
        }
        if n > 0 {
            assert(t[n - 1] == s[n - 1]);
        }
        lemma_trim_end_at(t, n);
        assert(t.take(n) =~= s.take(n));
    } else {
        assert(s.take(n) =~= s);
    }
}

/// The bounds of `chars[from..to]` with surrounding white space removed.
fn trim_bounds(chars: &Vec<char>, from: usize, to: usize) -> (r: (usize, usize))
    requires
        from <= to <= chars.len(),
    ensures
        from <= r.0 <= r.1 <= to,
        trimmed(chars@.subrange(from as int, to as int)) == chars@.subrange(r.0 as int, r.1 as int),
{
    let mut a = from;
    while a < to && is_space_char(chars[a])
        invariant
            from <= a <= to <= chars.len(),
            forall|i: int| from <= i < a ==> is_space(#[trigger] chars@[i]),
        decreases to - a,
    {
        a = a + 1;
    }
    let mut b = to;
    while b > a && is_space_char(chars[b - 1])
        invariant
            a <= b <= to <= chars.len(),
            forall|i: int| b <= i < to ==> is_space(#[trigger] chars@[i]),
        decreases b - a,
    {
        b = b - 1;
    }
    proof {
        let s = chars@.subrange(from as int, to as int);
        assert forall|i: int| 0 <= i < a - from implies is_space(#[trigger] s[i]) by {
            assert(s[i] == chars@[from + i]);
        }
        if a < to {
            assert(s[a - from] == chars@[a as int]);
        }
        lemma_trim_start_at(s, a - from);
        let u = chars@.subrange(a as int, to as int);
        assert(s.skip(a - from) =~= u);
        assert forall|i: int| b - a <= i < u.len() implies is_space(#[trigger] u[i]) by {
            assert(u[i] == chars@[a + i]);
        }
        if b > a {
            assert(u[b - a - 1] == chars@[b - 1]);
        }
        lemma_trim_end_at(u, b - a);
        assert(u.take(b - a) =~= chars@.subrange(a as int, b as int));
    }
    (a, b)
}

/// The position of the first `c` in `t`.
pub open spec fn position_of(t: Seq<char>, c: char) -> Option<int>
    decreases t.len(),
{
    if t.len() == 0 {
        None
    } else if t[0] == c {
        Some(0)
    } else {
        match position_of(t.drop_first(), c) {
            Some(k) => Some(k + 1),
            None => None,
        }
    }
}

proof fn lemma_position_found(t: Seq<char>, c: char, k: int)
    requires
        0 <= k < t.len(),
        t[k] == c,
        forall|j: int| 0 <= j < k ==> #[trigger] t[j] != c,
    ensures
        position_of(t, c) == Some(k),
    decreases k,
{
    if k > 0 {
        let u = t.drop_first();
        assert(t[0] != c);
        assert(u[k - 1] == t[k]);
        assert forall|j: int| 0 <= j < k - 1 implies #[trigger] u[j] != c by {
            assert(u[j] == t[j + 1]);
        }
        lemma_position_found(u, c, k - 1);
    }
}

proof fn lemma_position_absent(t: Seq<char>, c: char)
    requires
        forall|j: int| 0 <= j < t.len() ==> #[trigger] t[j] != c,
    ensures
        position_of(t, c) is None,
    decreases t.len(),
{
    if t.len() > 0 {
        let u = t.drop_first();
        assert(t[0] != c);
        assert forall|j: int| 0 <= j < u.len() implies #[trigger] u[j] != c by {
            assert(u[j] == t[j + 1]);
        }
        lemma_position_absent(u, c);
    }
}

/// The text split at every line feed. A final piece after the last line feed
/// is included even when it is empty; it is then blank and skipped.
pub open spec fn line_segments(s: Seq<char>) -> Seq<Seq<char>>
    decreases s.len(),
{
    if s.len() == 0 {
        seq![Seq::empty()]
    } else {
        let previous = line_segments(s.drop_last());
        if s.last() == '\n' {
            previous.push(Seq::empty())
        } else {
            previous.update(previous.len() - 1, previous.last().push(s.last()))
        }
    }
}

/// A line that is blank or a `#` comment once trimmed.
pub open spec fn is_skipped(line: Seq<char>) -> bool {
    trimmed(line).len() == 0 || trimmed(line)[0] == '#'
}

/// The trimmed key and value on either side of the first `=` of the trimmed
/// line, if it has one.
pub open spec fn line_entry(line: Seq<char>) -> Option<(Seq<char>, Seq<char>)> {
    let t = trimmed(line);
    match position_of(t, '=') {
        Some(k) => Some((trimmed(t.take(k)), trimmed(t.skip(k + 1)))),
        None => None,
    }
}

/// The key-value entries of `lines`, in order.
pub open spec fn entries_in(lines: Seq<Seq<char>>) -> Seq<(Seq<char>, Seq<char>)>
    decreases lines.len(),
{
    if lines.len() == 0 {
        Seq::empty()
    } else {
        let previous = entries_in(lines.drop_last());
        if !is_skipped(lines.last()) && line_entry(lines.last()) is Some {
            previous.push(line_entry(lines.last())->0)
        } else {
            previous
        }
    }
}

/// The numbers (counted from 1) of the lines of `lines` that are neither
/// skipped nor entries.
pub open spec fn malformed_in(lines: Seq<Seq<char>>) -> Seq<int>
    decreases lines.len(),
{
    if lines.len() == 0 {
        Seq::empty()
    } else {
        let previous = malformed_in(lines.drop_last());
        if !is_skipped(lines.last()) && line_entry(lines.last()) is None {
            previous.push(lines.len() as int)
        } else {
            previous
        }
    }
}

/// What one line holds.
enum LineContent {
    Skipped,
    Malformed,
    Entry(String, String),
}

fn read_line(text: &str, chars: &Vec<char>, start: usize, end: usize) -> (r: LineContent)
    requires
        chars@ == text@,
        start <= end <= chars.len(),
    ensures
        ({
            let line = chars@.subrange(start as int, end as int);
            match r {
                LineContent::Skipped => is_skipped(line),
                LineContent::Malformed => !is_skipped(line) && line_entry(line) is None,
                LineContent::Entry(key, value) => !is_skipped(line) && line_entry(line) == Some(
                    (key@, value@),
                ),
            }
        }),
        r is Malformed ==> start < end,
{
    let ghost line = chars@.subrange(start as int, end as int);
    let (a, b) = trim_bounds(chars, start, end);
    let ghost t = chars@.subrange(a as int, b as int);
    if a == b || chars[a] == '#' {
        return LineContent::Skipped;
    }
    let mut k = a;
    while k < b && chars[k] != '='
        invariant
            a <= k <= b <= chars.len(),
            forall|j: int| a <= j < k ==> #[trigger] chars@[j] != '=',
        decreases b - k,
    {
        k = k + 1;
    }
    if k == b {
        proof {
            assert forall|j: int| 0 <= j < t.len() implies #[trigger] t[j] != '=' by {
                assert(t[j] == chars@[a + j]);
            }
            lemma_position_absent(t, '=');
        }
        return LineContent::Malformed;
    }
    proof {
        assert(t[k - a] == chars@[k as int]);
        assert forall|j: int| 0 <= j < k - a implies #[trigger] t[j] != '=' by {
            assert(t[j] == chars@[a + j]);
        }
        lemma_position_found(t, '=', k - a);
        assert(t.take(k - a) =~= chars@.subrange(a as int, k as int));
        assert(t.skip(k - a + 1) =~= chars@.subrange(k + 1, b as int));
    }
    let (ka, kb) = trim_bounds(chars, a, k);
    let (va, vb) = trim_bounds(chars, k + 1, b);
    let key = text.substring_char(ka, kb).to_owned();
    let value = text.substring_char(va, vb).to_owned();
    LineContent::Entry(key, value)
}

proof fn lemma_line_segments_step(s: Seq<char>, i: int)
    requires
        0 <= i < s.len(),
    ensures
        line_segments(s.take(i + 1)) == (if s[i] == '\n' {
            line_segments(s.take(i)).push(Seq::empty())
        } else {
            line_segments(s.take(i)).update(
                line_segments(s.take(i)).len() - 1,
                line_segments(s.take(i)).last().push(s[i]),
            )
        }),
{
    assert(s.take(i + 1).drop_last() =~= s.take(i));
    assert(s.take(i + 1).last() == s[i]);
}

proof fn lemma_line_segments_nonempty(s: Seq<char>)
    ensures
        line_segments(s).len() >= 1,
    decreases s.len(),
{
    if s.len() > 0 {
        lemma_line_segments_nonempty(s.drop_last());
    }
}

/// One `KEY=VALUE` line.
pub struct CalibrationEntry {
    pub key: String,
    pub value: String,
}

/// The contents of a calibration file.
pub struct CalibrationText {
    /// Every entry, in file order.
    pub entries: Vec<CalibrationEntry>,
    /// The numbers (counted from 1) of lines that hold no `=`.
    pub malformed_lines: Vec<usize>,
}

/// The key and value of each entry.
pub open spec fn entry_views(entries: Seq<CalibrationEntry>) -> Seq<(Seq<char>, Seq<char>)> {
    entries.map_values(|e: CalibrationEntry| (e.key@, e.value@))
}

/// Line numbers as integers.
pub open spec fn numbers(lines: Seq<usize>) -> Seq<int> {
    lines.map_values(|n: usize| n as int)
}

fn record_line(
    entries: &mut Vec<CalibrationEntry>,
    malformed: &mut Vec<usize>,
    Ghost(done): Ghost<Seq<Seq<char>>>,
    done_count: usize,
    content: LineContent,
    Ghost(line): Ghost<Seq<char>>,
)
    requires
        entry_views(old(entries)@) == entries_in(done),
        numbers(old(malformed)@) == malformed_in(done),
        done_count == done.len(),
        content is Malformed ==> done_count < usize::MAX,
        match content {
            LineContent::Skipped => is_skipped(line),
            LineContent::Malformed => !is_skipped(line) && line_entry(line) is None,
            LineContent::Entry(key, value) => !is_skipped(line) && line_entry(line) == Some(
                (key@, value@),
            ),
        },
    ensures
        entry_views(final(entries)@) == entries_in(done.push(line)),
        numbers(final(malformed)@) == malformed_in(done.push(line)),
{
    assert(done.push(line).drop_last() =~= done);
    match content {
        LineContent::Skipped => {},
        LineContent::Malformed => {
            malformed.push(done_count + 1);
            assert(numbers(malformed@) =~= numbers(old(malformed)@).push(done_count + 1));
        },
        LineContent::Entry(key, value) => {
            let ghost k = key@;
            let ghost v = value@;
            entries.push(CalibrationEntry { key, value });
            assert(entry_views(entries@) =~= entry_views(old(entries)@).push((k, v)));
        },
    }
}

/// Splits the text of a calibration file into its entries and the numbers
/// of its malformed lines.
pub fn parse_calibration_text(text: &str) -> (r: CalibrationText)
    ensures
        entry_views(r.entries@) == entries_in(line_segments(text@)),
        numbers(r.malformed_lines@) == malformed_in(line_segments(text@)),
{
    let chars = collect_chars(text);
    let mut entries: Vec<CalibrationEntry> = Vec::new();
    let mut malformed: Vec<usize> = Vec::new();
    let mut start: usize = 0;
    let mut done_count: usize = 0;
    let ghost mut done: Seq<Seq<char>> = Seq::empty();
    let mut i: usize = 0;
    proof {
        assert(chars@.take(0) =~= Seq::<char>::empty());
        assert(chars@.subrange(0, 0) =~= Seq::<char>::empty());
        assert(entry_views(entries@) =~= Seq::empty());
        assert(numbers(malformed@) =~= Seq::empty());
    }
    while i < chars.len()
        invariant
            chars@ == text@,
            start <= i <= chars.len(),
            line_segments(chars@.take(i as int)) == done.push(chars@.subrange(start as int, i as int)),
            entry_views(entries@) == entries_in(done),
            numbers(malformed@) == malformed_in(done),
            done_count == done.len(),
            done_count <= start,
        decreases chars.len() - i,
    {
        proof {
            lemma_line_segments_step(chars@, i as int);
        }
        if chars[i] == '\n' {
            let content = read_line(text, &chars, start, i);
            let ghost line = chars@.subrange(start as int, i as int);
            record_line(&mut entries, &mut malformed, Ghost(done), done_count, content, Ghost(line));
            proof {
                done = done.push(line);
                assert(chars@.subrange(i + 1, i + 1) =~= Seq::<char>::empty());
            }
            done_count = done_count + 1;
            start = i + 1;
        } else {
            proof {
                assert(chars@.subrange(start as int, i as int).push(chars@[i as int]) =~= chars@.subrange(
                    start as int,
                    i + 1,
                ));
                assert(done.push(chars@.subrange(start as int, i as int)).update(
                    done.len() as int,
                    chars@.subrange(start as int, i + 1),
                ) =~= done.push(chars@.subrange(start as int, i + 1)));
            }
        }
        i = i + 1;
    }
    proof {
        assert(chars@.take(i as int) =~= chars@);
    }
    let content = read_line(text, &chars, start, i);
    let ghost line = chars@.subrange(start as int, i as int);
    record_line(&mut entries, &mut malformed, Ghost(done), done_count, content, Ghost(line));
    CalibrationText { entries, malformed_lines: malformed }
}

/// The value of the last entry with `key`: later lines override earlier
/// ones.
pub open spec fn last_value(entries: Seq<(Seq<char>, Seq<char>)>, key: Seq<char>) -> Option<
    Seq<char>,
>
    decreases entries.len(),
{
    if entries.len() == 0 {
        None
    } else if entries.last().0 == key {
        Some(entries.last().1)
    } else {
        last_value(entries.drop_last(), key)
    }
}

/// Whether `text` begins with `prefix`.
pub open spec fn has_prefix(text: Seq<char>, prefix: Seq<char>) -> bool {
    prefix.len() <= text.len() && text.take(prefix.len() as int) == prefix
}

fn starts_with(text: &str, prefix: &str) -> (r: bool)
    ensures
        r == has_prefix(text@, prefix@),
{
    let t = collect_chars(text);
    let p = collect_chars(prefix);
    if p.len() > t.len() {
        return false;
    }
    let mut i: usize = 0;
    while i < p.len()
        invariant
            p.len() <= t.len(),
            i <= p.len(),
            t@ == text@,
            p@ == prefix@,
            forall|j: int| 0 <= j < i ==> t@[j] == p@[j],
        decreases p.len() - i,
    {
        if t[i] != p[i] {
            assert(text@.take(prefix@.len() as int)[i as int] != prefix@[i as int]);
            return false;
        }
        i = i + 1;
    }
    assert(text@.take(prefix@.len() as int) =~= prefix@);
    true
}

impl CalibrationText {
    /// The value of `key`, from the last line that sets it.
    pub fn value(&self, key: &String) -> (r: Option<&String>)
        ensures
            match r {
                Some(v) => last_value(entry_views(self.entries@), key@) == Some(v@),
                None => last_value(entry_views(self.entries@), key@) is None,
            },
    {
        let mut i = self.entries.len();
        assert(self.entries@.take(i as int) =~= self.entries@);
        while i > 0
            invariant
                i <= self.entries.len(),
                last_value(entry_views(self.entries@), key@) == last_value(
                    entry_views(self.entries@.take(i as int)),
                    key@,
                ),
            decreases i,
        {
            let ghost before = entry_views(self.entries@.take(i as int));
            proof {
                assert(entry_views(self.entries@.take(i - 1)) =~= before.drop_last());
            }
            if self.entries[i - 1].key == *key {
                return Some(&self.entries[i - 1].value);
            }
            i = i - 1;
        }
        None
    }

    /// Whether some entry's key begins with `prefix`.
    pub fn has_key_with_prefix(&self, prefix: &str) -> (r: bool)
        ensures
            r == exists|i: int|
                0 <= i < self.entries@.len() && has_prefix(#[trigger] self.entries@[i].key@, prefix@),
    {
        let mut i: usize = 0;
        while i < self.entries.len()
            invariant
                i <= self.entries.len(),
                forall|j: int| 0 <= j < i ==> !has_prefix(#[trigger] self.entries@[j].key@, prefix@),
            decreases self.entries.len() - i,
        {
            if starts_with(self.entries[i].key.as_str(), prefix) {
                return true;
            }
            i = i + 1;
        }
        false
    }
}

/// A later entry with the same key overrides every earlier one.
pub proof fn lemma_later_entry_overrides(
    entries: Seq<(Seq<char>, Seq<char>)>,
    key: Seq<char>,
    value: Seq<char>,
)
    ensures
        last_value(entries.push((key, value)), key) == Some(value),
{
    assert(entries.push((key, value)).last() == (key, value));
}

/// Text that survives a write and a read unchanged: no line feed, and no
/// white space at either end.
pub open spec fn is_clean_value(v: Seq<char>) -> bool {
    &&& forall|i: int| 0 <= i < v.len() ==> #[trigger] v[i] != '\n'
    &&& v.len() == 0 || (!is_space(v[0]) && !is_space(v.last()))
}

/// A key that reads back as itself: clean, not empty, not a comment, and
/// without `=`.
pub open spec fn is_clean_key(k: Seq<char>) -> bool {
    &&& is_clean_value(k)
    &&& k.len() > 0
    &&& k[0] != '#'
    &&& forall|i: int| 0 <= i < k.len() ==> #[trigger] k[i] != '='
}

/// `lines`, each followed by a line feed.
pub open spec fn lines_text(lines: Seq<Seq<char>>) -> Seq<char>
    decreases lines.len(),
{
    if lines.len() == 0 {
        Seq::empty()
    } else {
        lines_text(lines.drop_last()) + lines.last() + seq!['\n']
    }
}

/// The line `KEY=VALUE`.
pub open spec fn entry_line(entry: (Seq<char>, Seq<char>)) -> Seq<char> {
    entry.0 + seq!['='] + entry.1
}

/// The two comment lines that open a written file.
pub open spec fn header_lines() -> Seq<Seq<char>> {
    seq![
        "# Flow Motion Controller mount calibration"@,
        "# Position is in metres; orientation is quaternion x, y, z, w."@,
    ]
}

/// The lines of a written file holding `entries`.
pub open spec fn file_lines(entries: Seq<(Seq<char>, Seq<char>)>) -> Seq<Seq<char>> {
    header_lines() + entries.map_values(|e: (Seq<char>, Seq<char>)| entry_line(e))
}

/// The text of a written file holding `entries`.
pub open spec fn file_text(entries: Seq<(Seq<char>, Seq<char>)>) -> Seq<char> {
    lines_text(file_lines(entries))
}

proof fn lemma_segments_plain(u: Seq<char>, t: Seq<char>)
    requires
        forall|i: int| 0 <= i < t.len() ==> #[trigger] t[i] != '\n',
    ensures
        line_segments(u + t) == line_segments(u).update(
            line_segments(u).len() - 1,
            line_segments(u).last() + t,
        ),
    decreases t.len(),
{
    lemma_line_segments_nonempty(u);
    if t.len() == 0 {
        assert(u + t =~= u);
        assert(line_segments(u).last() + t =~= line_segments(u).last());
        assert(line_segments(u).update(line_segments(u).len() - 1, line_segments(u).last())
            =~= line_segments(u));
    } else {
        let t0 = t.drop_last();
        assert forall|i: int| 0 <= i < t0.len() implies #[trigger] t0[i] != '\n' by {
            assert(t0[i] == t[i]);
        }
        lemma_segments_plain(u, t0);
        assert((u + t).drop_last() =~= u + t0);
        assert((u + t).last() == t.last());
        assert(t[t.len() - 1] != '\n');
        let prev = line_segments(u + t0);
        assert(prev.last() =~= line_segments(u).last() + t0);
        assert(prev.last().push(t.last()) =~= line_segments(u).last() + t);
        assert(prev.update(prev.len() - 1, prev.last().push(t.last())) =~= line_segments(u).update(
            line_segments(u).len() - 1,
            line_segments(u).last() + t,
        ));
    }
}

proof fn lemma_segments_of_lines(lines: Seq<Seq<char>>)
    requires
        forall|j: int, i: int|
            0 <= j < lines.len() && 0 <= i < lines[j].len() ==> #[trigger] lines[j][i] != '\n',
    ensures
        line_segments(lines_text(lines)) == lines.push(Seq::empty()),
    decreases lines.len(),
{
    if lines.len() == 0 {
        assert(line_segments(Seq::<char>::empty()) =~= seq![Seq::<char>::empty()]);
        assert(lines.push(Seq::empty()) =~= seq![Seq::<char>::empty()]);
    } else {
        let rest = lines.drop_last();
        let x = lines.last();
        assert forall|j: int, i: int| 0 <= j < rest.len() && 0 <= i < rest[j].len() implies #[trigger] rest[j][i]
            != '\n' by {
            assert(rest[j] == lines[j]);
        }
        lemma_segments_of_lines(rest);
        let tr = lines_text(rest);
        assert forall|i: int| 0 <= i < x.len() implies #[trigger] x[i] != '\n' by {
            assert(lines[lines.len() - 1][i] != '\n');
        }
        lemma_segments_plain(tr, x);
        assert(rest.push(Seq::empty()).last() + x =~= x);
        assert(rest.push(Seq::empty()).update(rest.len() as int, x) =~= lines);
        let whole = lines_text(lines);
        assert(whole == tr + x + seq!['\n']);
        assert(whole.drop_last() =~= tr + x);
        assert(whole.last() == '\n');
    }
}

proof fn lemma_clean_is_trimmed(s: Seq<char>)
    requires
        s.len() == 0 || (!is_space(s[0]) && !is_space(s.last())),
    ensures
        trimmed(s) == s,
{
    lemma_trim_start_at(s, 0);
    assert(s.skip(0) =~= s);
    lemma_trim_end_at(s, s.len() as int);
    assert(s.take(s.len() as int) =~= s);
}

proof fn lemma_entry_line_reads_back(entry: (Seq<char>, Seq<char>))
    requires
        is_clean_key(entry.0),
        is_clean_value(entry.1),
    ensures
        !is_skipped(entry_line(entry)),
        line_entry(entry_line(entry)) == Some(entry),
{
    let (k, v) = entry;
    let line = entry_line(entry);
    assert(line[0] == k[0]);
    if v.len() > 0 {
        assert(line.last() == v.last());
    } else {
        assert(line.last() == '=');
    }
    lemma_clean_is_trimmed(line);
    assert(line[k.len() as int] == '=');
    assert forall|j: int| 0 <= j < k.len() implies #[trigger] line[j] != '=' by {
        assert(line[j] == k[j]);
    }
    lemma_position_found(line, '=', k.len() as int);
    assert(line.take(k.len() as int) =~= k);
    assert(line.skip(k.len() as int + 1) =~= v);
    lemma_clean_is_trimmed(k);
    lemma_clean_is_trimmed(v);
}

proof fn lemma_header_lines()
    ensures
        forall|j: int, i: int|
            0 <= j < header_lines().len() && 0 <= i < header_lines()[j].len()
                ==> #[trigger] header_lines()[j][i] != '\n',
        is_skipped(header_lines()[0]),
        is_skipped(header_lines()[1]),
{
    reveal_strlit("# Flow Motion Controller mount calibration");
    reveal_strlit("# Position is in metres; orientation is quaternion x, y, z, w.");
    let h0 = header_lines()[0];
    let h1 = header_lines()[1];
    lemma_clean_is_trimmed(h0);
    lemma_clean_is_trimmed(h1);
}

proof fn lemma_entries_in_file_lines(entries: Seq<(Seq<char>, Seq<char>)>)
    requires
        forall|i: int|
            0 <= i < entries.len() ==> is_clean_key(#[trigger] entries[i].0) && is_clean_value(
                entries[i].1,
            ),
    ensures
        entries_in(file_lines(entries)) == entries,
    decreases entries.len(),
{
    lemma_header_lines();
    if entries.len() == 0 {
        assert(file_lines(entries) =~= header_lines());
        assert(header_lines().drop_last() =~= seq![header_lines()[0]]);
        assert(seq![header_lines()[0]].drop_last() =~= Seq::<Seq<char>>::empty());
        assert(entries_in(Seq::<Seq<char>>::empty()) =~= Seq::empty());
        assert(entries_in(seq![header_lines()[0]]) =~= Seq::empty());
        assert(entries_in(header_lines()) =~= Seq::empty());
    } else {
        let rest = entries.drop_last();
        assert forall|i: int| 0 <= i < rest.len() implies is_clean_key(#[trigger] rest[i].0)
            && is_clean_value(rest[i].1) by {
            assert(rest[i] == entries[i]);
        }
        lemma_entries_in_file_lines(rest);
        assert(file_lines(entries).drop_last() =~= file_lines(rest));
        assert(file_lines(entries).last() == entry_line(entries.last()));
        assert(is_clean_key(entries[entries.len() - 1].0));
        lemma_entry_line_reads_back(entries.last());
        assert(rest.push(entries.last()) =~= entries);
    }
}

/// Reading a written file gives back exactly the entries that were written,
/// in order, as long as every key is clean and every value has no line feed
/// and no white space at either end.
pub proof fn lemma_written_file_reads_back(entries: Seq<(Seq<char>, Seq<char>)>)
    requires
        forall|i: int|
            0 <= i < entries.len() ==> is_clean_key(#[trigger] entries[i].0) && is_clean_value(
                entries[i].1,
            ),
    ensures
        entries_in(line_segments(file_text(entries))) == entries,
{
    let lines = file_lines(entries);
    lemma_header_lines();
    assert forall|j: int, i: int| 0 <= j < lines.len() && 0 <= i < lines[j].len() implies #[trigger] lines[j][i]
        != '\n' by {
        if j >= 2 {
            let e = entries[j - 2];
            assert(lines[j] == entry_line(e));
            assert(is_clean_key(entries[j - 2].0));
            if i < e.0.len() {
                assert(lines[j][i] == e.0[i]);
            } else if i > e.0.len() {
                assert(lines[j][i] == e.1[i - e.0.len() - 1]);
            }
        } else {
            assert(lines[j] == header_lines()[j]);
        }
    }
    lemma_segments_of_lines(lines);
    lemma_entries_in_file_lines(entries);
    assert(lines.push(Seq::empty()).drop_last() =~= lines);
    assert(trimmed(Seq::<char>::empty()) =~= Seq::<char>::empty());
}

/// Index of a hand in per-hand arrays: left first, right second.
pub fn hand_index(is_left: bool) -> (index: usize)
    ensures
        index == (if is_left {
            0usize
        } else {
            1usize
        }),
{
    if is_left {
        0
    } else {
        1
    }
}

/// The label of a hand in the calibration file's keys.
pub open spec fn hand_label(is_left: bool) -> Seq<char> {
    if is_left {
        "LEFT"@
    } else {
        "RIGHT"@
    }
}

/// The label of a hand in the calibration file's keys: `LEFT` or `RIGHT`.
pub fn hand_name(is_left: bool) -> (name: &'static str)
    ensures
        name@ == hand_label(is_left),
{
    if is_left {
        "LEFT"
    } else {
        "RIGHT"
    }
}

/// The key suffix of the `i`-th stored value of a hand, in file order.
pub open spec fn key_suffix(i: int) -> Seq<char> {
    if i == 0 {
        "_SERIAL"@
    } else if i == 1 {
        "_OFFSET_X"@
    } else if i == 2 {
        "_OFFSET_Y"@
    } else if i == 3 {
        "_OFFSET_Z"@
    } else if i == 4 {
        "_OFFSET_QX"@
    } else if i == 5 {
        "_OFFSET_QY"@
    } else if i == 6 {
        "_OFFSET_QZ"@
    } else {
        "_OFFSET_QW"@
    }
}

fn key_suffix_at(i: usize) -> (suffix: &'static str)
    requires
        i < 8,
    ensures
        suffix@ == key_suffix(i as int),
{
    match i {
        0 => "_SERIAL",
        1 => "_OFFSET_X",
        2 => "_OFFSET_Y",
        3 => "_OFFSET_Z",
        4 => "_OFFSET_QX",
        5 => "_OFFSET_QY",
        6 => "_OFFSET_QZ",
        _ => "_OFFSET_QW",
    }
}

/// The stored calibration of one hand as the text of its values: the
/// tracker serial, then the offset position x, y, z and orientation
/// quaternion x, y, z, w, each already formatted.
pub struct StoredHandText {
    pub serial: String,
    pub offset_x: String,
    pub offset_y: String,
    pub offset_z: String,
    pub offset_qx: String,
    pub offset_qy: String,
    pub offset_qz: String,
    pub offset_qw: String,
}

impl StoredHandText {
    /// The `i`-th value, in file order.
    pub open spec fn field(self, i: int) -> Seq<char> {
        if i == 0 {
            self.serial@
        } else if i == 1 {
            self.offset_x@
        } else if i == 2 {
            self.offset_y@
        } else if i == 3 {
            self.offset_z@
        } else if i == 4 {
            self.offset_qx@
        } else if i == 5 {
            self.offset_qy@
        } else if i == 6 {
            self.offset_qz@
        } else {
            self.offset_qw@
        }
    }

    fn field_at(&self, i: usize) -> (value: &String)
        requires
            i < 8,
        ensures
            value@ == self.field(i as int),
    {
        match i {
            0 => &self.serial,
            1 => &self.offset_x,
            2 => &self.offset_y,
            3 => &self.offset_z,
            4 => &self.offset_qx,
            5 => &self.offset_qy,
            6 => &self.offset_qz,
            _ => &self.offset_qw,
        }
    }

    /// The eight entries this hand writes.
    pub open spec fn entries(self, is_left: bool) -> Seq<(Seq<char>, Seq<char>)> {
        Seq::new(8, |i: int| (hand_label(is_left) + key_suffix(i), self.field(i)))
    }
}

/// The entries written for the stored hands, left first.
pub open spec fn stored_entries(left: Option<StoredHandText>, right: Option<StoredHandText>) -> Seq<
    (Seq<char>, Seq<char>),
> {
    (match left {
        Some(h) => h.entries(true),
        None => Seq::empty(),
    }) + (match right {
        Some(h) => h.entries(false),
        None => Seq::empty(),
    })
}

proof fn lemma_lines_text_push(lines: Seq<Seq<char>>, line: Seq<char>)
    ensures
        lines_text(lines.push(line)) == lines_text(lines) + line + seq!['\n'],
{
    assert(lines.push(line).drop_last() =~= lines);
}

fn write_hand(
    text: &mut String,
    is_left: bool,
    hand: &StoredHandText,
    Ghost(written): Ghost<Seq<(Seq<char>, Seq<char>)>>,
)
    requires
        old(text)@ == file_text(written),
    ensures
        final(text)@ == file_text(written + hand.entries(is_left)),
{
    let ghost all = written + hand.entries(is_left);
    let mut i: usize = 0;
    assert(written + hand.entries(is_left).take(0) =~= written);
    while i < 8
        invariant
            i <= 8,
            all == written + hand.entries(is_left),
            text@ == file_text(written + hand.entries(is_left).take(i as int)),
        decreases 8 - i,
    {
        let ghost before = written + hand.entries(is_left).take(i as int);
        let ghost after = written + hand.entries(is_left).take(i + 1);
        let ghost entry = hand.entries(is_left)[i as int];
        proof {
            reveal_strlit("=");
            reveal_strlit("\n");
            assert(after =~= before.push(entry));
            assert(file_lines(after) =~= file_lines(before).push(entry_line(entry)));
            lemma_lines_text_push(file_lines(before), entry_line(entry));
        }
        text.append(hand_name(is_left));
        text.append(key_suffix_at(i));
        text.append("=");
        text.append(hand.field_at(i).as_str());
        text.append("\n");
        assert(text@ =~= file_text(after));
        i = i + 1;
    }
    assert(hand.entries(is_left).take(8) =~= hand.entries(is_left));
}

/// The text of the calibration file for the stored hands.
pub fn calibration_file_text(left: &Option<StoredHandText>, right: &Option<StoredHandText>) -> (text:
    String)
    ensures
        text@ == file_text(stored_entries(*left, *right)),
        stored_entries(*left, *right) == named_entries(*left, true) + named_entries(*right, false),
{
    proof {
        lemma_stored_entries_are_named(*left, *right);
    }
    let mut text = String::new();
    proof {
        reveal_strlit("\n");
        let h = header_lines();
        assert(h.drop_last() =~= seq![h[0]]);
        assert(seq![h[0]].drop_last() =~= Seq::<Seq<char>>::empty());
        assert(file_lines(Seq::empty()) =~= h);
        assert(lines_text(Seq::<Seq<char>>::empty()) =~= Seq::<char>::empty());
        assert(seq![h[0]].last() == h[0]);
        assert(lines_text(seq![h[0]]) =~= h[0] + seq!['\n']);
        assert(h.last() == h[1]);
        assert(lines_text(h) =~= h[0] + seq!['\n'] + h[1] + seq!['\n']);
    }
    text.append("# Flow Motion Controller mount calibration");
    text.append("\n");
    text.append("# Position is in metres; orientation is quaternion x, y, z, w.");
    text.append("\n");
    assert(text@ =~= file_text(Seq::empty()));
    let ghost mut written: Seq<(Seq<char>, Seq<char>)> = Seq::empty();
    match left {
        Some(hand) => {
            write_hand(&mut text, true, hand, Ghost(written));
            proof {
                written = written + hand.entries(true);
            }
        },
        None => {},
    }
    match right {
        Some(hand) => {
            write_hand(&mut text, false, hand, Ghost(written));
            proof {
                written = written + hand.entries(false);
            }
        },
        None => {},
    }
    assert(written =~= stored_entries(*left, *right));
    text
}

proof fn lemma_hand_keys_clean(is_left: bool, i: int)
    requires
        0 <= i < 8,
    ensures
        is_clean_key(hand_label(is_left) + key_suffix(i)),
{
    reveal_strlit("LEFT");
    reveal_strlit("RIGHT");
    reveal_strlit("_SERIAL");
    reveal_strlit("_OFFSET_X");
    reveal_strlit("_OFFSET_Y");
    reveal_strlit("_OFFSET_Z");
    reveal_strlit("_OFFSET_QX");
    reveal_strlit("_OFFSET_QY");
    reveal_strlit("_OFFSET_QZ");
    reveal_strlit("_OFFSET_QW");
    let label = hand_label(is_left);
    let suffix = key_suffix(i);
    let key = label + suffix;
    assert(key[0] == label[0]);
    assert(key.last() == suffix.last());
    assert forall|j: int| 0 <= j < key.len() implies #[trigger] key[j] != '\n' && key[j] != '=' by {
        if j < label.len() {
            assert(key[j] == label[j]);
        } else {
            assert(key[j] == suffix[j - label.len()]);
        }
    }
}

/// Whether every value of `hand` survives a write and a read.
pub open spec fn hand_is_clean(hand: Option<StoredHandText>) -> bool {
    match hand {
        Some(h) => forall|i: int| 0 <= i < 8 ==> is_clean_value(#[trigger] h.field(i)),
        None => true,
    }
}

/// Reading the file written for the stored hands gives back, in order,
/// every key with its value, provided no value holds a line feed or
/// surrounding white space.
pub proof fn lemma_stored_file_reads_back(left: Option<StoredHandText>, right: Option<StoredHandText>)
    requires
        hand_is_clean(left),
        hand_is_clean(right),
    ensures
        entries_in(line_segments(file_text(stored_entries(left, right)))) == stored_entries(
            left,
            right,
        ),
{
    let entries = stored_entries(left, right);
    assert forall|i: int| 0 <= i < entries.len() implies is_clean_key(#[trigger] entries[i].0)
        && is_clean_value(entries[i].1) by {
        let left_count: int = match left {
            Some(h) => 8,
            None => 0,
        };
        if i < left_count {
            let h = left->0;
            assert(entries[i] == h.entries(true)[i]);
            lemma_hand_keys_clean(true, i);
        } else {
            let h = right->0;
            assert(entries[i] == h.entries(false)[i - left_count]);
            lemma_hand_keys_clean(false, i - left_count);
        }
    }
    lemma_written_file_reads_back(entries);
}

/// The key of the `i`-th stored value of a hand.
pub open spec fn hand_key(is_left: bool, i: int) -> Seq<char> {
    hand_label(is_left) + key_suffix(i)
}

/// The value of `key` when the file sets it to something non-empty.
pub open spec fn present_value(entries: Seq<(Seq<char>, Seq<char>)>, key: Seq<char>) -> Option<
    Seq<char>,
> {
    match last_value(entries, key) {
        Some(v) => if v.len() > 0 {
            Some(v)
        } else {
            None
        },
        None => None,
    }
}

impl CalibrationText {
    /// The text of a hand's eight stored values, in file order (serial, then
    /// offset x, y, z, qx, qy, qz, qw): `None` when no key starts with the
    /// hand's label and `_`; otherwise each value that is set and non-empty,
    /// and `None` for each one that is missing or empty.
    pub fn hand_fields(&self, is_left: bool) -> (r: Option<Vec<Option<String>>>)
        ensures
            r is Some <==> exists|i: int|
                0 <= i < self.entries@.len() && has_prefix(
                    #[trigger] self.entries@[i].key@,
                    hand_label(is_left) + seq!['_'],
                ),
            r matches Some(fields) ==> {
                &&& fields@.len() == 8
                &&& forall|i: int|
                    0 <= i < 8 ==> match #[trigger] fields@[i] {
                        Some(v) => present_value(entry_views(self.entries@), hand_key(is_left, i))
                            == Some(v@),
                        None => present_value(entry_views(self.entries@), hand_key(is_left, i))
                            is None,
                    }
            },
    {
        let mut prefix = String::from_str(hand_name(is_left));
        proof {
            reveal_strlit("_");
        }
        prefix.append("_");
        assert(prefix@ =~= hand_label(is_left) + seq!['_']);
        if !self.has_key_with_prefix(prefix.as_str()) {
            return None;
        }
        let mut fields: Vec<Option<String>> = Vec::new();
        let mut i: usize = 0;
        while i < 8
            invariant
                i <= 8,
                fields@.len() == i,
                forall|j: int|
                    0 <= j < i ==> match #[trigger] fields@[j] {
                        Some(v) => present_value(entry_views(self.entries@), hand_key(is_left, j))
                            == Some(v@),
                        None => present_value(entry_views(self.entries@), hand_key(is_left, j))
                            is None,
                    },
            decreases 8 - i,
        {
            let mut key = String::from_str(hand_name(is_left));
            key.append(key_suffix_at(i));
            let field = match self.value(&key) {
                Some(v) => if v.as_str().is_empty() {
                    None
                } else {
                    Some(v.clone())
                },
                None => None,
            };
            fields.push(field);
            i = i + 1;
        }
        Some(fields)
    }
}

/// Whether a stored calibration belongs to the configured tracker: a tracker
/// is configured and its serial is the stored one.
pub fn serial_matches(stored: &String, configured: &String) -> (r: bool)
    ensures
        r == (configured@.len() > 0 && stored@ == configured@),
{
    !configured.as_str().is_empty() && *stored == *configured
}

/// The entries of one stored hand, each key with the value of the field it
/// names: `{HAND}_SERIAL` with the serial, `{HAND}_OFFSET_X` with `offset_x`,
/// and so on through `{HAND}_OFFSET_QW` with `offset_qw`.
pub open spec fn named_entries(hand: Option<StoredHandText>, is_left: bool) -> Seq<
    (Seq<char>, Seq<char>),
> {
    let label = if is_left {
        "LEFT"@
    } else {
        "RIGHT"@
    };
    match hand {
        None => Seq::empty(),
        Some(h) => seq![
            (label + "_SERIAL"@, h.serial@),
            (label + "_OFFSET_X"@, h.offset_x@),
            (label + "_OFFSET_Y"@, h.offset_y@),
            (label + "_OFFSET_Z"@, h.offset_z@),
            (label + "_OFFSET_QX"@, h.offset_qx@),
            (label + "_OFFSET_QY"@, h.offset_qy@),
            (label + "_OFFSET_QZ"@, h.offset_qz@),
            (label + "_OFFSET_QW"@, h.offset_qw@),
        ],
    }
}

/// Each written key carries the value of the field it names, left hand
/// first.
pub proof fn lemma_stored_entries_are_named(left: Option<StoredHandText>, right: Option<StoredHandText>)
    ensures
        stored_entries(left, right) == named_entries(left, true) + named_entries(right, false),
{
    if let Some(h) = left {
        assert(h.entries(true) =~= named_entries(left, true));
    }
    if let Some(h) = right {
        assert(h.entries(false) =~= named_entries(right, false));
    }
    assert(stored_entries(left, right) =~= named_entries(left, true) + named_entries(right, false));
}

} // verus!
