//! Which changes of a work tree are worth a snapshot.
//!
//! Paths that match an ignore pattern and binary files are passed over. The patterns are those
//! that are ignored everywhere and those that the ignore files of the work tree list. A file that
//! is written too often is suspended until it has been left alone for a while.
use vstd::prelude::*;
use vstd::slice::slice_subrange;
use vstd::string::*;

use crate::text::{chars_of, contains_chars, find_char, found_at, string_of, trim};
use crate::text_map::TextMap;

verus! {

/// Writes per second above which a file is suspended.
pub const CIRCUIT_K: u64 = 50;

/// How long a suspended file has to be left alone, in nanoseconds: two seconds.
pub const CIRCUIT_SUSPEND: u64 = 2_000_000_000;

/// Nanoseconds in a second.
pub const SECOND: u64 = 1_000_000_000;

/// What happened to a file.
#[derive(Debug, Clone, Copy, PartialEq, Eq, Structural)]
pub enum EventKind {
    /// It came into being.
    Created,
    /// Its content changed.
    Modified,
    /// It was deleted.
    Deleted,
    /// It got another name.
    Renamed,
}

/// A change of a file.
#[derive(Debug)]
pub struct FileEvent {
    /// The path, where it is text.
    pub path: Option<String>,
    /// What happened.
    pub kind: EventKind,
    /// When, in nanoseconds.
    pub timestamp: u64,
}

/// The patterns that are ignored in every work tree.
pub open spec fn default_ignore() -> Seq<Seq<char>> {
    seq![
        ".git/"@,
        "node_modules/"@,
        "*.pyc"@,
        "__pycache__/"@,
        "*.o"@,
        "*.so"@,
        "*.dylib"@,
        "*.dll"@,
        "*.class"@,
        "*.exe"@,
        "target/"@,
        "build/"@,
        "*.log"@,
        "*.tmp"@,
        "*.swp"@,
        "*~"@,
        ".DS_Store"@,
        "Thumbs.db"@,
    ]
}

/// The pattern without the slashes at its end.
pub open spec fn without_slashes(pattern: Seq<char>) -> Seq<char>
    decreases pattern.len(),
{
    if pattern.len() > 0 && pattern.last() == '/' {
        without_slashes(pattern.drop_last())
    } else {
        pattern
    }
}

/// A path matches a pattern. A pattern that ends in a slash names a directory, which the path
/// has to contain; one that starts with a star names an ending; any other text has to stand
/// somewhere in the path.
pub open spec fn matches(path: Seq<char>, pattern: Seq<char>) -> bool {
    if pattern.len() > 0 && pattern.last() == '/' {
        crate::text::contains_seq(path, without_slashes(pattern))
    } else if pattern.len() > 0 && pattern[0] == '*' {
        crate::text::stands_at(path, pattern.skip(1), path.len() - (pattern.len() - 1))
    } else {
        crate::text::contains_seq(path, pattern)
    }
}

/// Some pattern matches a path.
pub open spec fn ignored(patterns: Seq<Seq<char>>, path: Seq<char>) -> bool {
    exists|i: int| 0 <= i < patterns.len() && matches(path, #[trigger] patterns[i])
}

/// The files at the root of a work tree that list patterns.
pub open spec fn ignore_files() -> Seq<Seq<char>> {
    seq![".z3rmignore"@, ".gitignore"@]
}

/// The pattern that a line of an ignore file lists, if it does: a blank line and one that opens
/// with a number sign list none.
pub open spec fn line_pattern(line: Seq<char>) -> Seq<Seq<char>> {
    let pattern = crate::text::trimmed(line);
    if pattern.len() == 0 || pattern[0] == '#' {
        Seq::empty()
    } else {
        seq![pattern]
    }
}

/// The patterns that an ignore file lists, line by line.
pub open spec fn listed_patterns(text: Seq<char>) -> Seq<Seq<char>>
    decreases text.len(),
{
    let end = crate::text::first_pos(text, '\n');
    if 0 <= end < text.len() {
        line_pattern(text.take(end)) + listed_patterns(text.skip(end + 1))
    } else {
        line_pattern(text)
    }
}

/// The files at the root of a work tree that list patterns.
pub fn ignore_file_names() -> (names: Vec<&'static str>)
    ensures
        names@.map_values(|name: &str| name@) == ignore_files(),
{
    let names = vec![".z3rmignore", ".gitignore"];
    assert(names@.map_values(|name: &str| name@) =~= ignore_files());
    names
}

/// The patterns of a filter.
pub struct IgnoreFilter {
    /// The root of the work tree.
    pub worktree_root: String,
    /// The patterns.
    pub patterns: Vec<String>,
}

impl View for IgnoreFilter {
    type V = Seq<Seq<char>>;

    open spec fn view(&self) -> Seq<Seq<char>> {
        self.patterns@.map_values(|pattern: String| pattern@)
    }
}

impl IgnoreFilter {
    /// The filter of a work tree, with the patterns that are ignored everywhere.
    pub fn new(worktree_root: String) -> (filter: IgnoreFilter)
        ensures
            filter@ == default_ignore(),
            filter.worktree_root == worktree_root,
    {
        let mut patterns: Vec<String> = Vec::new();
        patterns.push(".git/".to_owned());
        patterns.push("node_modules/".to_owned());
        patterns.push("*.pyc".to_owned());
        patterns.push("__pycache__/".to_owned());
        patterns.push("*.o".to_owned());
        patterns.push("*.so".to_owned());
        patterns.push("*.dylib".to_owned());
        patterns.push("*.dll".to_owned());
        patterns.push("*.class".to_owned());
        patterns.push("*.exe".to_owned());
        patterns.push("target/".to_owned());
        patterns.push("build/".to_owned());
        patterns.push("*.log".to_owned());
        patterns.push("*.tmp".to_owned());
        patterns.push("*.swp".to_owned());
        patterns.push("*~".to_owned());
        patterns.push(".DS_Store".to_owned());
        patterns.push("Thumbs.db".to_owned());
        let filter = IgnoreFilter { worktree_root, patterns };
        assert(filter@ =~= default_ignore());
        filter
    }

    /// Adds a pattern.
    pub fn add_pattern(&mut self, pattern: &str)
        ensures
            final(self)@ == old(self)@.push(pattern@),
            final(self).worktree_root == old(self).worktree_root,
    {
        self.patterns.push(pattern.to_owned());
        assert(self@ =~= old(self)@.push(pattern@));
    }

    /// Adds the pattern that a line of an ignore file lists, if it does.
    fn add_line(&mut self, line: &[char])
        ensures
            final(self)@ == old(self)@ + line_pattern(line@),
            final(self).worktree_root == old(self).worktree_root,
    {
        let pattern = trim(line);
        if pattern.len() == 0 || pattern[0] == '#' {
            assert(self@ + Seq::<Seq<char>>::empty() =~= self@);
            return;
        }
        let text = string_of(pattern.as_slice(), 0, pattern.len());
        assert(text@ =~= pattern@);
        self.add_pattern(text.as_str());
        assert(self@ =~= old(self)@ + seq![pattern@]);
    }

    /// Adds the patterns that an ignore file lists.
    pub fn add_ignore_file(&mut self, text: &str)
        ensures
            final(self)@ == old(self)@ + listed_patterns(text@),
            final(self).worktree_root == old(self).worktree_root,
    {
        let chars = chars_of(text);
        let mut from: usize = 0;
        assert(chars@.skip(0) =~= chars@);
        loop
            invariant
                chars@ == text@,
                from <= chars@.len(),
                old(self)@ + listed_patterns(text@) == self@ + listed_patterns(
                    chars@.skip(from as int),
                ),
                self.worktree_root == old(self).worktree_root,
            decreases chars@.len() - from,
        {
            let rest = slice_subrange(chars.as_slice(), from, chars.len());
            assert(rest@ =~= chars@.skip(from as int));
            let ghost before = self@;
            match find_char(rest, '\n') {
                Some(end) => {
                    let line = slice_subrange(rest, 0, end);
                    assert(line@ =~= rest@.take(end as int));
                    self.add_line(line);
                    assert(rest@.skip(end + 1) =~= chars@.skip(from + end + 1));
                    assert(before + listed_patterns(rest@) =~= self@ + listed_patterns(
                        rest@.skip(end + 1),
                    ));
                    from = from + end + 1;
                },
                None => {
                    self.add_line(rest);
                    return;
                },
            }
        }
    }

    /// Whether some pattern matches a path. A path that is not text matches none.
    pub fn should_ignore(&self, path: Option<&str>) -> (ignore: bool)
        ensures
            ignore == (path is Some && ignored(self@, path->0@)),
    {
        let text = match path {
            Some(text) => text,
            None => {
                return false;
            },
        };
        let mut i: usize = 0;
        while i < self.patterns.len()
            invariant
                i <= self.patterns@.len(),
                path == Some(text),
                forall|j: int| 0 <= j < i ==> !matches(text@, #[trigger] self@[j]),
            decreases self.patterns@.len() - i,
        {
            if IgnoreFilter::matches_pattern(text, self.patterns[i].as_str()) {
                assert(self@[i as int] == self.patterns@[i as int]@);
                return true;
            }
            assert(self@[i as int] == self.patterns@[i as int]@);
            i += 1;
        }
        false
    }

    /// Whether a path matches a pattern.
    pub fn matches_pattern(path: &str, pattern: &str) -> (matched: bool)
        ensures
            matched == matches(path@, pattern@),
    {
        let hay = chars_of(path);
        let mut needle = chars_of(pattern);
        if needle.len() > 0 && needle[needle.len() - 1] == '/' {
            while needle.len() > 0 && needle[needle.len() - 1] == '/'
                invariant
                    without_slashes(pattern@) == without_slashes(needle@),
                decreases needle@.len(),
            {
                let ghost before = needle@;
                needle.pop();
                assert(needle@ =~= before.drop_last());
            }
            contains_chars(&hay, &needle)
        } else if needle.len() > 0 && needle[0] == '*' {
            let ghost whole = needle@;
            needle.remove(0);
            assert(needle@ =~= whole.skip(1));
            if hay.len() < needle.len() {
                return false;
            }
            found_at(&hay, &needle, hay.len() - needle.len())
        } else {
            contains_chars(&hay, &needle)
        }
    }
}

/// The bytes that open an ELF file.
pub open spec fn elf_magic() -> Seq<u8> {
    seq![0x7fu8, 0x45u8, 0x4cu8, 0x46u8]
}

/// The bytes that open a Mach-O file.
pub open spec fn macho_magic() -> Seq<u8> {
    seq![0xfeu8, 0xedu8, 0xfau8, 0xceu8]
}

/// The bytes that open a PE file.
pub open spec fn pe_magic() -> Seq<u8> {
    seq![0x4du8, 0x5au8]
}

/// How many bytes are zero.
pub open spec fn zeros(bytes: Seq<u8>) -> nat
    decreases bytes.len(),
{
    if bytes.len() == 0 {
        0
    } else {
        zeros(bytes.drop_last()) + (if bytes.last() == 0 {
            1nat
        } else {
            0
        })
    }
}

/// How much of a file is looked at for zero bytes.
pub const SAMPLE_SIZE: usize = 512;

/// The first bytes of a file, which are looked at for zero bytes.
pub open spec fn sample(content: Seq<u8>) -> Seq<u8> {
    if content.len() <= SAMPLE_SIZE {
        content
    } else {
        content.take(SAMPLE_SIZE as int)
    }
}

/// The content is that of a binary file: it opens like an executable, or more than a tenth of
/// its first bytes is zero.
pub open spec fn is_binary(content: Seq<u8>) -> bool {
    ||| crate::text::stands_at(content, elf_magic(), 0)
    ||| crate::text::stands_at(content, macho_magic(), 0)
    ||| crate::text::stands_at(content, pe_magic(), 0)
    ||| 10 * zeros(sample(content)) > sample(content).len()
}

/// How often a file was written lately.
#[derive(Debug, Clone, Copy)]
pub struct WriteWindow {
    /// The writes since the window was opened.
    pub count: u32,
    /// When the window was opened.
    pub opened: u64,
    /// When the file was written last.
    pub last: u64,
    /// Whether the file is suspended.
    pub suspended: bool,
}

/// The time from one moment to another, or none if the other one is earlier.
pub open spec fn elapsed(from: u64, to: u64) -> int {
    if to >= from {
        to - from
    } else {
        0
    }
}

/// The window that a write at a moment counts in: a new one where there is none, where the old
/// one is over, and where a suspended file has been left alone long enough.
pub open spec fn window_at(window: Option<WriteWindow>, now: u64) -> WriteWindow {
    let fresh = WriteWindow { count: 0, opened: now, last: now, suspended: false };
    match window {
        Some(window) => if window.suspended {
            if elapsed(window.last, now) > CIRCUIT_SUSPEND {
                fresh
            } else {
                window
            }
        } else if elapsed(window.opened, now) > CIRCUIT_SUSPEND {
            fresh
        } else {
            window
        },
        None => fresh,
    }
}

/// The write comes too fast: the window has more than the allowed number of writes per second.
pub open spec fn too_fast(count: int, opened: u64, now: u64) -> bool {
    elapsed(opened, now) > 0 && count * SECOND > CIRCUIT_K * elapsed(opened, now)
}

/// A window after a write, and whether the write is passed over. The count stops at the largest
/// number.
pub open spec fn after_write(window: Option<WriteWindow>, now: u64) -> (WriteWindow, bool) {
    let current = window_at(window, now);
    if current.suspended {
        (WriteWindow { last: now, ..current }, true)
    } else {
        let count = if current.count < u32::MAX {
            current.count + 1
        } else {
            u32::MAX as int
        };
        let tripped = too_fast(count, current.opened, now);
        (
            WriteWindow {
                count: count as u32,
                opened: current.opened,
                last: now,
                suspended: tripped,
            },
            tripped,
        )
    }
}

/// A suspended file stays suspended until it has been left alone long enough, and is then
/// taken up again at once.
pub proof fn law_suspension_lasts_until_the_file_is_idle(window: WriteWindow, now: u64)
    requires
        window.suspended,
    ensures
        after_write(Some(window), now).1 <==> elapsed(window.last, now) <= CIRCUIT_SUSPEND,
        after_write(Some(window), now).0.suspended <==> elapsed(window.last, now)
            <= CIRCUIT_SUSPEND,
{
}

/// A file that is written for the first time, or after its window is over, is never passed
/// over.
pub proof fn law_first_write_counts(window: Option<WriteWindow>, now: u64)
    requires
        window matches Some(window) ==> elapsed(window.opened, now) > CIRCUIT_SUSPEND && elapsed(
            window.last,
            now,
        ) > CIRCUIT_SUSPEND,
    ensures
        !after_write(window, now).1,
{
}

/// Suspends files that are written too often.
pub struct CircuitBreaker {
    /// The windows of the files by path.
    pub counts: TextMap<WriteWindow>,
}

/// The window of a path.
pub open spec fn window_of(counts: Map<Seq<char>, WriteWindow>, path: Seq<char>) -> Option<
    WriteWindow,
> {
    if counts.contains_key(path) {
        Some(counts[path])
    } else {
        None
    }
}

/// The windows after some writes of files, one after the other.
pub open spec fn counts_after(
    counts: Map<Seq<char>, WriteWindow>,
    writes: Seq<(Seq<char>, u64)>,
) -> Map<Seq<char>, WriteWindow>
    decreases writes.len(),
{
    if writes.len() == 0 {
        counts
    } else {
        let before = counts_after(counts, writes.drop_last());
        let (path, now) = writes.last();
        before.insert(path, after_write(window_of(before, path), now).0)
    }
}

/// When a file was written last among some writes; the given moment where it was not.
pub open spec fn last_write(writes: Seq<(Seq<char>, u64)>, path: Seq<char>, first: u64) -> u64
    decreases writes.len(),
{
    if writes.len() == 0 {
        first
    } else if writes.last().0 == path {
        writes.last().1
    } else {
        last_write(writes.drop_last(), path, first)
    }
}

/// A file is never left alone long enough between its writes.
pub open spec fn never_idle(writes: Seq<(Seq<char>, u64)>, path: Seq<char>, first: u64) -> bool
    decreases writes.len(),
{
    writes.len() == 0 || (never_idle(writes.drop_last(), path, first) && (writes.last().0 == path
        ==> elapsed(last_write(writes.drop_last(), path, first), writes.last().1)
        <= CIRCUIT_SUSPEND))
}

proof fn lemma_stays_suspended(
    counts: Map<Seq<char>, WriteWindow>,
    writes: Seq<(Seq<char>, u64)>,
    path: Seq<char>,
    first: u64,
)
    requires
        window_of(counts, path) is Some,
        window_of(counts, path)->0.suspended,
        window_of(counts, path)->0.last == first,
        never_idle(writes, path, first),
    ensures
        window_of(counts_after(counts, writes), path) is Some,
        window_of(counts_after(counts, writes), path)->0.suspended,
        window_of(counts_after(counts, writes), path)->0.last == last_write(writes, path, first),
    decreases writes.len(),
{
    if writes.len() > 0 {
        lemma_stays_suspended(counts, writes.drop_last(), path, first);
    }
}

/// Once a write of a file is passed over, so is every later one until the file has been left
/// alone long enough, whatever other files are written meanwhile.
pub proof fn law_tripped_file_stays_suspended(
    counts: Map<Seq<char>, WriteWindow>,
    path: Seq<char>,
    first: u64,
    writes: Seq<(Seq<char>, u64)>,
    now: u64,
)
    requires
        after_write(window_of(counts, path), first).1,
        never_idle(writes, path, first),
        elapsed(last_write(writes, path, first), now) <= CIRCUIT_SUSPEND,
    ensures
        ({
            let tripped = counts.insert(path, after_write(window_of(counts, path), first).0);
            after_write(window_of(counts_after(tripped, writes), path), now).1
        }),
{
    let tripped = counts.insert(path, after_write(window_of(counts, path), first).0);
    lemma_stays_suspended(tripped, writes, path, first);
}

/// A write of one file does not touch what is known of another.
pub proof fn law_other_files_are_not_affected(
    counts: Map<Seq<char>, WriteWindow>,
    path: Seq<char>,
    other: Seq<char>,
    now: u64,
)
    requires
        path != other,
    ensures
        window_of(counts_after(counts, seq![(path, now)]), other) == window_of(counts, other),
{
    reveal_with_fuel(counts_after, 2);
    assert(seq![(path, now)].drop_last() =~= Seq::<(Seq<char>, u64)>::empty());
}

impl CircuitBreaker {
    /// No path has two windows.
    pub open spec fn wf(&self) -> bool {
        self.counts.wf()
    }

    /// A breaker that has seen no write.
    pub fn new() -> (breaker: CircuitBreaker)
        ensures
            breaker.wf(),
            breaker.counts@ == Map::<Seq<char>, WriteWindow>::empty(),
    {
        CircuitBreaker { counts: TextMap::new() }
    }

    /// Counts a write of a file, and says whether it is passed over.
    pub fn check(&mut self, path: &str, now: u64) -> (tripped: bool)
        requires
            old(self).wf(),
        ensures
            final(self).wf(),
            final(self).counts@ == old(self).counts@.insert(
                path@,
                after_write(window_of(old(self).counts@, path@), now).0,
            ),
            tripped == after_write(window_of(old(self).counts@, path@), now).1,
    {
        let known: Option<WriteWindow> = match self.counts.get(path) {
            Some(window) => Some(*window),
            None => None,
        };
        let mut window = match known {
            Some(window) => window,
            None => WriteWindow { count: 0, opened: now, last: now, suspended: false },
        };
        let since: u64 = if window.suspended {
            window.last
        } else {
            window.opened
        };
        if now > since && now - since > CIRCUIT_SUSPEND {
            window = WriteWindow { count: 0, opened: now, last: now, suspended: false };
        }
        assert(window == window_at(known, now));
        let tripped = if window.suspended {
            true
        } else {
            window.count = window.count.saturating_add(1);
            let passed: u64 = if now >= window.opened {
                now - window.opened
            } else {
                0
            };
            passed > 0 && window.count as u64 * SECOND > CIRCUIT_K * passed
        };
        window.last = now;
        window.suspended = tripped;
        self.counts.insert(path.to_owned(), window);
        tripped
    }
}

/// Decides which changes of a work tree are worth a snapshot.
pub struct Monitor {
    /// The paths to pass over.
    pub ignore_filter: IgnoreFilter,
    /// The files to pass over for a while.
    pub circuit_breaker: CircuitBreaker,
}

impl Monitor {
    /// The monitor of a work tree.
    pub fn new(worktree_root: String) -> (monitor: Monitor)
        ensures
            monitor.ignore_filter@ == default_ignore(),
            monitor.ignore_filter.worktree_root == worktree_root,
            monitor.circuit_breaker.wf(),
            monitor.circuit_breaker.counts@ == Map::<Seq<char>, WriteWindow>::empty(),
    {
        Monitor {
            ignore_filter: IgnoreFilter::new(worktree_root),
            circuit_breaker: CircuitBreaker::new(),
        }
    }

    /// Whether a change of a file is worth a snapshot: no pattern matches its path, its content
    /// is not binary, and it is not suspended. Only a change that passes the first two tests is
    /// counted as a write. `key` tells files apart whose paths are not text; `content` is what
    /// could be read of the file.
    pub fn handle_event(
        &mut self,
        path: Option<&str>,
        key: &str,
        content: Option<&[u8]>,
        now: u64,
    ) -> (snapshot: bool)
        requires
            old(self).circuit_breaker.wf(),
        ensures
            final(self).circuit_breaker.wf(),
            final(self).ignore_filter == old(self).ignore_filter,
            ({
                let counted = !(path is Some && ignored(old(self).ignore_filter@, path->0@)) && !(
                content is Some && is_binary(content->0@));
                let outcome = after_write(window_of(old(self).circuit_breaker.counts@, key@), now);
                &&& snapshot == (counted && !outcome.1)
                &&& final(self).circuit_breaker.counts@ == (if counted {
                    old(self).circuit_breaker.counts@.insert(key@, outcome.0)
                } else {
                    old(self).circuit_breaker.counts@
                })
            }),
    {
        if self.ignore_filter.should_ignore(path) {
            return false;
        }
        match content {
            Some(content) => {
                if Monitor::is_binary_file(content) {
                    return false;
                }
            },
            None => {},
        }
        !self.circuit_breaker.check(key, now)
    }

    /// Whether a content is that of a binary file.
    pub fn is_binary_file(content: &[u8]) -> (binary: bool)
        ensures
            binary == is_binary(content@),
    {
        if content.len() >= 4 {
            if content[0] == 0x7f && content[1] == 0x45 && content[2] == 0x4c && content[3]
                == 0x46 {
                assert(content@.subrange(0, 4) =~= elf_magic());
                return true;
            }
            if content[0] == 0xfe && content[1] == 0xed && content[2] == 0xfa && content[3]
                == 0xce {
                assert(content@.subrange(0, 4) =~= macho_magic());
                return true;
            }
        }
        proof {
            if crate::text::stands_at(content@, elf_magic(), 0) {
                assert(content@.subrange(0, 4)[0] == content@[0]);
                assert(content@.subrange(0, 4)[1] == content@[1]);
                assert(content@.subrange(0, 4)[2] == content@[2]);
                assert(content@.subrange(0, 4)[3] == content@[3]);
            }
            if crate::text::stands_at(content@, macho_magic(), 0) {
                assert(content@.subrange(0, 4)[0] == content@[0]);
                assert(content@.subrange(0, 4)[1] == content@[1]);
                assert(content@.subrange(0, 4)[2] == content@[2]);
                assert(content@.subrange(0, 4)[3] == content@[3]);
            }
        }
        if content.len() >= 2 && content[0] == 0x4d && content[1] == 0x5a {
            assert(content@.subrange(0, 2) =~= pe_magic());
            return true;
        }
        proof {
            if crate::text::stands_at(content@, pe_magic(), 0) {
                assert(content@.subrange(0, 2)[0] == content@[0]);
                assert(content@.subrange(0, 2)[1] == content@[1]);
            }
        }
        let len: usize = if content.len() <= SAMPLE_SIZE {
            content.len()
        } else {
            SAMPLE_SIZE
        };
        let ghost looked_at = sample(content@);
        let mut count: usize = 0;
        let mut i: usize = 0;
        assert(looked_at.take(0) =~= Seq::<u8>::empty());
        while i < len
            invariant
                i <= len,
                len <= content@.len(),
                len == looked_at.len(),
                forall|k: int| 0 <= k < len ==> #[trigger] looked_at[k] == content@[k],
                count <= i,
                count == zeros(looked_at.take(i as int)),
            decreases len - i,
        {
            assert(looked_at.take(i + 1).drop_last() =~= looked_at.take(i as int));
            if content[i] == 0 {
                count += 1;
            }
            i += 1;
        }
        assert(looked_at.take(i as int) =~= looked_at);
        count > len / 10
    }

    /// Adds the patterns of an ignore file to the paths to pass over.
    pub fn add_ignore_file(&mut self, text: &str)
        ensures
            final(self).ignore_filter@ == old(self).ignore_filter@ + listed_patterns(text@),
            final(self).ignore_filter.worktree_root == old(self).ignore_filter.worktree_root,
            final(self).circuit_breaker == old(self).circuit_breaker,
    {
        self.ignore_filter.add_ignore_file(text);
    }

    /// Adds a pattern to the paths to pass over.
    pub fn add_ignore_pattern(&mut self, pattern: &str)
        ensures
            final(self).ignore_filter@ == old(self).ignore_filter@.push(pattern@),
            final(self).ignore_filter.worktree_root == old(self).ignore_filter.worktree_root,
            final(self).circuit_breaker == old(self).circuit_breaker,
    {
        self.ignore_filter.add_pattern(pattern);
    }
}

/// A pattern that ends in a slash matches the paths in which the name before the slash occurs.
pub proof fn law_directory_pattern_matches_its_name(
    before: Seq<char>,
    name: Seq<char>,
    behind: Seq<char>,
    path: Seq<char>,
)
    requires
        name.len() > 0,
        name.last() != '/',
    ensures
        matches(before + name + behind, name.push('/')),
        matches(path, name.push('/')) <==> crate::text::contains_seq(path, name),
{
    let pattern = name.push('/');
    assert(pattern.drop_last() =~= name);
    assert(without_slashes(name) == name);
    assert(without_slashes(pattern) == name);
    crate::text::law_contained_text_stands_between(before, name, behind);
}

/// A pattern that starts with a star matches the paths that end in what follows the star, and no
/// others.
pub proof fn law_star_pattern_matches_the_end(
    before: Seq<char>,
    end: Seq<char>,
    path: Seq<char>,
)
    requires
        end.len() > 0,
        end.last() != '/',
    ensures
        matches(before + end, seq!['*'] + end),
        matches(path, seq!['*'] + end) ==> path.len() >= end.len() && path.skip(
            path.len() - end.len(),
        ) == end,
{
    let pattern = seq!['*'] + end;
    assert(pattern.skip(1) =~= end);
    assert(pattern.last() == end.last());
    let whole = before + end;
    assert(whole.subrange(before.len() as int, (before.len() + end.len()) as int) =~= end);
    if matches(path, pattern) {
        assert(path.skip(path.len() - end.len()) =~= path.subrange(
            path.len() - end.len(),
            path.len() - end.len() + end.len(),
        ));
    }
}

/// Any other pattern matches the paths in which it occurs.
pub proof fn law_plain_pattern_matches_where_it_occurs(
    before: Seq<char>,
    pattern: Seq<char>,
    behind: Seq<char>,
    path: Seq<char>,
)
    requires
        pattern.len() > 0,
        pattern.last() != '/',
        pattern[0] != '*',
    ensures
        matches(before + pattern + behind, pattern),
        matches(path, pattern) <==> crate::text::contains_seq(path, pattern),
{
    crate::text::law_contained_text_stands_between(before, pattern, behind);
}

/// A path is ignored as soon as one pattern matches it, and further patterns never bring it back.
pub proof fn law_one_pattern_is_enough(
    patterns: Seq<Seq<char>>,
    pattern: Seq<char>,
    path: Seq<char>,
)
    ensures
        !ignored(Seq::<Seq<char>>::empty(), path),
        ignored(patterns.push(pattern), path) <==> ignored(patterns, path) || matches(path, pattern),
{
    let more = patterns.push(pattern);
    if ignored(patterns, path) {
        let i = choose|i: int|
            0 <= i < patterns.len() && matches(path, #[trigger] patterns[i]);
        assert(more[i] == patterns[i]);
    }
    if matches(path, pattern) {
        assert(more[patterns.len() as int] == pattern);
    }
    if ignored(more, path) {
        let i = choose|i: int| 0 <= i < more.len() && matches(path, #[trigger] more[i]);
        if i < patterns.len() {
            assert(more[i] == patterns[i]);
        }
    }
}

/// Without any ignore file, what version control, dependencies, builds, logs and editors leave
/// behind is ignored.
pub proof fn law_common_leavings_are_ignored()
    ensures
        default_ignore().len() == 18,
        default_ignore().contains(".git/"@),
        default_ignore().contains("node_modules/"@),
        default_ignore().contains("*.pyc"@),
        default_ignore().contains("__pycache__/"@),
        default_ignore().contains("*.o"@),
        default_ignore().contains("*.so"@),
        default_ignore().contains("*.dylib"@),
        default_ignore().contains("*.dll"@),
        default_ignore().contains("*.class"@),
        default_ignore().contains("*.exe"@),
        default_ignore().contains("target/"@),
        default_ignore().contains("build/"@),
        default_ignore().contains("*.log"@),
        default_ignore().contains("*.tmp"@),
        default_ignore().contains("*.swp"@),
        default_ignore().contains("*~"@),
        default_ignore().contains(".DS_Store"@),
        default_ignore().contains("Thumbs.db"@),
        ignore_files() == seq![".z3rmignore"@, ".gitignore"@],
{
    let listed = default_ignore();
    assert(listed[0] == ".git/"@);
    assert(listed[1] == "node_modules/"@);
    assert(listed[2] == "*.pyc"@);
    assert(listed[3] == "__pycache__/"@);
    assert(listed[4] == "*.o"@);
    assert(listed[5] == "*.so"@);
    assert(listed[6] == "*.dylib"@);
    assert(listed[7] == "*.dll"@);
    assert(listed[8] == "*.class"@);
    assert(listed[9] == "*.exe"@);
    assert(listed[10] == "target/"@);
    assert(listed[11] == "build/"@);
    assert(listed[12] == "*.log"@);
    assert(listed[13] == "*.tmp"@);
    assert(listed[14] == "*.swp"@);
    assert(listed[15] == "*~"@);
    assert(listed[16] == ".DS_Store"@);
    assert(listed[17] == "Thumbs.db"@);
}

/// An ignore file lists one pattern a line, in their order.
pub proof fn law_each_line_lists_a_pattern(line: Seq<char>, rest: Seq<char>)
    requires
        !line.contains('\n'),
    ensures
        listed_patterns(line) == line_pattern(line),
        listed_patterns(line.push('\n') + rest) == line_pattern(line) + listed_patterns(rest),
{
    crate::text::law_first_and_last_place(line, '\n', rest);
    let text = line.push('\n') + rest;
    assert(text.take(line.len() as int) =~= line);
    assert(text.skip(line.len() as int + 1) =~= rest);
}

/// A line lists the pattern that stands between its white space, unless nothing does or it is a
/// comment.
pub proof fn law_line_lists_what_it_holds(
    before: Seq<char>,
    pattern: Seq<char>,
    behind: Seq<char>,
)
    requires
        forall|i: int|
            0 <= i < before.len() ==> crate::text::unicode_white_space(#[trigger] before[i]),
        forall|i: int|
            0 <= i < behind.len() ==> crate::text::unicode_white_space(#[trigger] behind[i]),
        pattern.len() > 0 ==> !crate::text::unicode_white_space(pattern[0])
            && !crate::text::unicode_white_space(pattern.last()),
    ensures
        pattern.len() == 0 || pattern[0] == '#' ==> line_pattern(
            before + pattern + behind,
        ).len() == 0,
        pattern.len() > 0 && pattern[0] != '#' ==> line_pattern(before + pattern + behind) == seq![
            pattern,
        ],
{
    crate::text::law_trimming_takes_the_white_space_at_the_ends(before, pattern, behind);
}

/// The content of an executable is binary, whatever follows its opening bytes.
pub proof fn law_executables_are_binary(rest: Seq<u8>)
    ensures
        is_binary(seq![0x7fu8, 0x45u8, 0x4cu8, 0x46u8] + rest),
        is_binary(seq![0xfeu8, 0xedu8, 0xfau8, 0xceu8] + rest),
        is_binary(seq![0x4du8, 0x5au8] + rest),
{
    let elf = seq![0x7fu8, 0x45u8, 0x4cu8, 0x46u8];
    let macho = seq![0xfeu8, 0xedu8, 0xfau8, 0xceu8];
    let pe = seq![0x4du8, 0x5au8];
    assert((elf + rest).subrange(0, 4) =~= elf);
    assert((macho + rest).subrange(0, 4) =~= macho);
    assert((pe + rest).subrange(0, 2) =~= pe);
}

/// Any other content is binary just where more than a tenth of its first 512 bytes are zero.
pub proof fn law_zeros_make_a_content_binary(content: Seq<u8>)
    requires
        content.len() >= 2,
        content[0] != 0x7f && content[0] != 0xfe && content[0] != 0x4d,
    ensures
        content.len() <= 512 ==> (is_binary(content) <==> 10 * zeros(content) > content.len()),
        content.len() > 512 ==> (is_binary(content) <==> 10 * zeros(content.take(512)) > 512),
{
    assert(elf_magic()[0] == 0x7f && macho_magic()[0] == 0xfe && pe_magic()[0] == 0x4d);
    if crate::text::stands_at(content, elf_magic(), 0) {
        assert(content.subrange(0, 4)[0] == content[0]);
    }
    if crate::text::stands_at(content, macho_magic(), 0) {
        assert(content.subrange(0, 4)[0] == content[0]);
    }
    if crate::text::stands_at(content, pe_magic(), 0) {
        assert(content.subrange(0, 2)[0] == content[0]);
    }
}

/// Each zero byte counts as one, and no other byte does.
pub proof fn law_zero_bytes_are_counted(bytes: Seq<u8>, byte: u8)
    ensures
        zeros(Seq::<u8>::empty()) == 0,
        zeros(bytes.push(byte)) == zeros(bytes) + (if byte == 0 {
            1nat
        } else {
            0
        }),
{
    assert(bytes.push(byte).drop_last() =~= bytes);
}

/// Within two seconds of the first write of a window, a write is passed over just where the writes
/// of the window, with this one, came faster than fifty a second; it is counted, and the window
/// stays as it was opened.
pub proof fn law_fast_writes_are_passed_over(window: WriteWindow, now: u64)
    requires
        !window.suspended,
        window.opened <= now <= window.opened + 2_000_000_000,
        window.count < u32::MAX,
    ensures
        after_write(Some(window), now).1 <==> now > window.opened && (window.count + 1)
            * 1_000_000_000 > 50 * (now - window.opened),
        after_write(Some(window), now).0.count == window.count + 1,
        after_write(Some(window), now).0.opened == window.opened,
        after_write(Some(window), now).0.last == now,
        after_write(Some(window), now).0.suspended == after_write(Some(window), now).1,
{
}

/// The first write of a file, and the first one later than two seconds after the window was opened
/// or after a suspended file was last written, opens a window of its own.
pub proof fn law_window_is_opened_anew(window: WriteWindow, now: u64)
    ensures
        after_write(None, now).0 == (WriteWindow {
            count: 1,
            opened: now,
            last: now,
            suspended: false,
        }),
        !window.suspended && now > window.opened + 2_000_000_000 ==> after_write(Some(window), now)
            == after_write(None, now),
        window.suspended && now > window.last + 2_000_000_000 ==> after_write(Some(window), now)
            == after_write(None, now),
        window.suspended && now <= window.last + 2_000_000_000 ==> after_write(Some(window), now)
            == (WriteWindow { last: now, ..window }, true),
{
}

} // verus!
