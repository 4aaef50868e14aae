use vstd::prelude::*;
use vstd::std_specs::iter::IteratorSpec;

verus! {

/// Number of bytes that `c` takes in UTF-8.
pub open spec fn spec_utf8_len(c: char) -> nat {
    if (c as u32) < 0x80 {
        1
    } else if (c as u32) < 0x800 {
        2
    } else if (c as u32) < 0x10000 {
        3
    } else {
        4
    }
}

/// Number of bytes that the character sequence `s` takes in UTF-8.
pub open spec fn spec_byte_len(s: Seq<char>) -> nat
    decreases s.len(),
{
    if s.len() == 0 {
        0
    } else {
        spec_byte_len(s.drop_last()) + spec_utf8_len(s.last())
    }
}

/// The byte offsets at which the lines of `s` start: 0, and the offset just after each newline.
pub open spec fn spec_line_starts(s: Seq<char>) -> Seq<usize>
    decreases s.len(),
{
    if s.len() == 0 {
        seq![0usize]
    } else if s.last() == '\n' {
        spec_line_starts(s.drop_last()).push(spec_byte_len(s) as usize)
    } else {
        spec_line_starts(s.drop_last())
    }
}

/// A sequence of offsets that is strictly increasing and starts at 0.
pub open spec fn starts_well_formed(starts: Seq<usize>) -> bool {
    &&& starts.len() > 0
    &&& starts[0] == 0
    &&& forall|i: int, j: int| 0 <= i < j < starts.len() ==> starts[i] < starts[j]
}

/// The 1-based line and column of byte `offset`, given the line starts.
/// The line is the last one whose start is at or before `offset`.
pub open spec fn spec_line_col_at(starts: Seq<usize>, offset: usize, line: usize, col: usize) -> bool {
    let i = line - 1;
    &&& 1 <= line <= starts.len()
    &&& starts[i] <= offset
    &&& (i + 1 == starts.len() || starts[i + 1] > offset)
    &&& col == offset - starts[i] + 1
}

/// UTF-8 length of one character.
pub fn utf8_len(c: char) -> (n: usize)
    ensures
        n == spec_utf8_len(c),
{
    let v = c as u32;
    if v < 0x80 {
        1
    } else if v < 0x800 {
        2
    } else if v < 0x10000 {
        3
    } else {
        4
    }
}

/// Identifies one file of a [`SourceMap`] by its position in it.
#[derive(Debug, Clone, Copy, PartialEq, Eq)]
pub struct FileId(pub usize);

/// The file id used where no source map is involved: the first file.
pub fn dummy_file_id() -> (id: FileId)
    ensures
        id.0 == 0,
{
    FileId(0)
}

/// A half-open byte range `[start, end)` in one file.
#[derive(Debug, Clone, Copy, PartialEq, Eq)]
pub struct Span {
    pub file_id: FileId,
    pub start: usize,
    pub end: usize,
}

impl Span {
    pub fn new(file_id: FileId, start: usize, end: usize) -> (s: Self)
        ensures
            s == (Span { file_id, start, end }),
    {
        Span { file_id, start, end }
    }
}

/// A source file: its path, its text, and where each of its lines starts.
#[derive(Debug, Clone)]
pub struct SourceFile {
    pub path: String,
    pub text: String,
    line_starts: Vec<usize>,
}

impl SourceFile {
    /// The byte offsets of the line starts of this file.
    pub closed spec fn starts(&self) -> Seq<usize> {
        self.line_starts@
    }

    /// The characters of the file's text.
    pub closed spec fn text_chars(&self) -> Seq<char> {
        self.text@
    }

    /// The characters of the file's path.
    pub closed spec fn path_chars(&self) -> Seq<char> {
        self.path@
    }

    /// The line starts are those of the text, and they increase strictly from 0.
    pub closed spec fn wf(&self) -> bool {
        &&& self.line_starts@ == spec_line_starts(self.text@)
        &&& starts_well_formed(self.line_starts@)
    }

    pub proof fn lemma_wf_starts(&self)
        requires
            self.wf(),
        ensures
            self.starts() == spec_line_starts(self.text_chars()),
            starts_well_formed(self.starts()),
    {
    }

    pub fn new(path: &str, text: String) -> (f: Self)
        requires
            spec_byte_len(text@) < usize::MAX,
        ensures
            f.wf(),
            f.path_chars() == path@,
            f.text_chars() == text@,
    {
        let line_starts = Self::compute_line_starts(&text);
        SourceFile { path: String::from_str(path), text, line_starts }
    }

    fn compute_line_starts(text: &String) -> (starts: Vec<usize>)
        requires
            spec_byte_len(text@) < usize::MAX,
        ensures
            starts@ == spec_line_starts(text@),
            starts_well_formed(starts@),
    {
        let chars = chars_of(text.as_str());
        let mut line_starts: Vec<usize> = Vec::new();
        line_starts.push(0);
        let mut byte_index: usize = 0;
        let mut i: usize = 0;
        while i < chars.len()
            invariant
                i <= chars@.len(),
                chars@ == text@,
                spec_byte_len(text@) < usize::MAX,
                byte_index == spec_byte_len(chars@.take(i as int)),
                line_starts@ == spec_line_starts(chars@.take(i as int)),
                starts_well_formed(line_starts@),
                forall|k: int| 0 <= k < line_starts@.len() ==> line_starts@[k] <= byte_index,
            decreases chars.len() - i,
        {
            let ch = chars[i];
            proof {
                assert(chars@.take(i + 1).drop_last() =~= chars@.take(i as int));
                lemma_byte_len_prefix_mono(chars@, i as int + 1, chars@.len() as int);
                assert(chars@.take(chars@.len() as int) =~= chars@);
            }
            byte_index = byte_index + utf8_len(ch);
            if ch == '\n' {
                line_starts.push(byte_index);
            }
            i = i + 1;
        }
        proof {
            assert(chars@.take(i as int) =~= chars@);
        }
        line_starts
    }

    /// The 1-based line and column of a byte offset.
    pub fn line_col(&self, offset: usize) -> (r: (usize, usize))
        requires
            self.wf(),
            offset < usize::MAX,
        ensures
            spec_line_col_at(self.starts(), offset, r.0, r.1),
    {
        let mut line_index: usize = 0;
        let mut k: usize = 0;
        while k < self.line_starts.len()
            invariant
                starts_well_formed(self.line_starts@),
                k <= self.line_starts@.len(),
                line_index < self.line_starts@.len(),
                self.line_starts@[line_index as int] <= offset,
                k > 0 ==> line_index == k - 1,
                k == 0 ==> line_index == 0,
            ensures
                line_index < self.line_starts@.len(),
                self.line_starts@[line_index as int] <= offset,
                line_index + 1 == self.line_starts@.len() || self.line_starts@[line_index + 1] > offset,
            decreases self.line_starts.len() - k,
        {
            if self.line_starts[k] <= offset {
                line_index = k;
            } else {
                break;
            }
            k = k + 1;
        }
        let line_start = self.line_starts[line_index];
        (line_index + 1, offset - line_start + 1)
    }
}

/// Prefixes of a character sequence take no more bytes than longer prefixes.
pub proof fn lemma_byte_len_prefix_mono(s: Seq<char>, i: int, j: int)
    requires
        0 <= i <= j <= s.len(),
    ensures
        spec_byte_len(s.take(i)) <= spec_byte_len(s.take(j)),
    decreases j - i,
{
    if i < j {
        lemma_byte_len_prefix_mono(s, i, j - 1);
        assert(s.take(j).drop_last() =~= s.take(j - 1));
    }
}

/// The byte length of a concatenation is the sum of the byte lengths.
pub proof fn lemma_byte_len_concat(a: Seq<char>, b: Seq<char>)
    ensures
        spec_byte_len(a + b) == spec_byte_len(a) + spec_byte_len(b),
    decreases b.len(),
{
    if b.len() > 0 {
        lemma_byte_len_concat(a, b.drop_last());
        assert((a + b).drop_last() =~= a + b.drop_last());
    } else {
        assert(a + b =~= a);
    }
}

/// The characters of a string, in order.
pub fn chars_of(s: &str) -> (v: Vec<char>)
    ensures
        v@ == s@,
{
    broadcast use vstd::string::group_string_axioms;
    let mut v: Vec<char> = Vec::new();
    let mut it = s.chars();
    loop
        invariant
            it.obeys_prophetic_iter_laws(),
            v@ + it.remaining() == s@,
            it.decrease() is Some,
        ensures
            v@ == s@,
        decreases it.decrease()->0,
    {
        match it.next() {
            Some(c) => {
                v.push(c);
            },
            None => {
                break;
            },
        }
    }
    v
}

/// Where a span starts: file path, line and column.
#[derive(Debug, Clone, PartialEq, Eq)]
pub struct SourceLocation {
    pub path: String,
    pub line: usize,
    pub column: usize,
}

/// All the files read for one compilation, indexed by [`FileId`].
#[derive(Debug, Clone)]
pub struct SourceMap {
    files: Vec<SourceFile>,
}

impl SourceMap {
    /// The files of the map, in the order they were added.
    pub closed spec fn files(&self) -> Seq<SourceFile> {
        self.files@
    }

    /// Every file of the map is well formed.
    pub open spec fn wf(&self) -> bool {
        forall|i: int| 0 <= i < self.files().len() ==> #[trigger] self.files()[i].wf()
    }

    pub fn new() -> (m: Self)
        ensures
            m.files().len() == 0,
            m.wf(),
    {
        SourceMap { files: Vec::new() }
    }

    /// The number of files in the map.
    pub fn file_count(&self) -> (n: usize)
        ensures
            n == self.files().len(),
    {
        self.files.len()
    }

    /// Adds a file and returns its id, which is its position.
    pub fn add_file(&mut self, path: &str, text: String) -> (id: FileId)
        requires
            spec_byte_len(text@) < usize::MAX,
        ensures
            id.0 == old(self).files().len(),
            final(self).files().len() == old(self).files().len() + 1,
            final(self).files().take(id.0 as int) == old(self).files(),
            final(self).files()[id.0 as int].path_chars() == path@,
            final(self).files()[id.0 as int].text_chars() == text@,
            final(self).files()[id.0 as int].wf(),
            old(self).wf() ==> final(self).wf(),
    {
        let file = SourceFile::new(path, text);
        let file_id = FileId(self.files.len());
        self.files.push(file);
        proof {
            assert(self.files@.take(file_id.0 as int) =~= old(self).files@);
            assert forall|i: int| 0 <= i < self.files().len() && old(self).wf() implies #[trigger] self.files()[i].wf() by {
                if i < old(self).files().len() {
                    assert(self.files()[i] == old(self).files()[i]);
                }
            }
        }
        file_id
    }

    /// The file with the given id.
    pub fn file(&self, file_id: FileId) -> (f: &SourceFile)
        requires
            file_id.0 < self.files().len(),
        ensures
            *f == self.files()[file_id.0 as int],
    {
        &self.files[file_id.0]
    }

    /// The path, line and column at which a span starts.
    pub fn location(&self, span: Span) -> (loc: SourceLocation)
        requires
            self.wf(),
            span.file_id.0 < self.files().len(),
            span.start < usize::MAX,
        ensures
            loc.path@ == self.files()[span.file_id.0 as int].path_chars(),
            spec_line_col_at(self.files()[span.file_id.0 as int].starts(), span.start, loc.line, loc.column),
    {
        let file = self.file(span.file_id);
        proof {
            assert(self.files()[span.file_id.0 as int].wf());
        }
        let (line, col) = file.line_col(span.start);
        SourceLocation { path: file.path.clone(), line, column: col }
    }
}

/// The number of leading characters of `s` that start before byte `offset`.
pub open spec fn count_before(s: Seq<char>, offset: int) -> nat
    decreases s.len(),
{
    if s.len() == 0 {
        0
    } else if spec_byte_len(s.drop_last()) < offset {
        s.len()
    } else {
        count_before(s.drop_last(), offset)
    }
}

/// `count_before` is the position of the first character that starts at or
/// after `offset`.
pub proof fn lemma_count_before(s: Seq<char>, offset: int, i: int)
    requires
        0 <= i <= s.len(),
        i == s.len() || spec_byte_len(s.take(i)) >= offset,
        i == 0 || spec_byte_len(s.take(i - 1)) < offset,
    ensures
        count_before(s, offset) == i,
    decreases s.len(),
{
    if s.len() > 0 {
        assert(s.drop_last() =~= s.take(s.len() - 1));
        if spec_byte_len(s.drop_last()) < offset {
            if i < s.len() {
                lemma_byte_len_prefix_mono(s, i, s.len() - 1);
            }
        } else {
            if i == s.len() {
                assert(s.take(i - 1) =~= s.drop_last());
            }
            assert(s.drop_last().take(i) =~= s.take(i));
            if i > 0 {
                assert(s.drop_last().take(i - 1) =~= s.take(i - 1));
            }
            lemma_count_before(s.drop_last(), offset, i);
        }
    }
}


/// The characters of `t` that start at a byte offset in `from..to`.
pub open spec fn spec_text_between(t: Seq<char>, from: int, to: int) -> Seq<char> {
    let a = count_before(t, from);
    let b = count_before(t, to);
    if a <= b {
        t.subrange(a as int, b as int)
    } else {
        Seq::empty()
    }
}

/// The position of the first character of `t` that starts at or after byte `offset`.
pub fn char_index(t: &Vec<char>, offset: usize) -> (i: usize)
    ensures
        i as int == count_before(t@, offset as int),
        i <= t@.len(),
{
    let mut byte_index: usize = 0;
    let mut i: usize = 0;
    while i < t.len()
        invariant_except_break
            byte_index as int == spec_byte_len(t@.take(i as int)),
        invariant
            i <= t@.len(),
            i == 0 || spec_byte_len(t@.take(i - 1)) < offset,
        ensures
            i == t@.len() || spec_byte_len(t@.take(i as int)) >= offset,
            i == 0 || spec_byte_len(t@.take(i - 1)) < offset,
        decreases t.len() - i,
    {
        if byte_index >= offset {
            break;
        }
        let len = utf8_len(t[i]);
        proof {
            assert(t@.take(i + 1).drop_last() =~= t@.take(i as int));
            assert(t@.take(i + 1).last() == t@[i as int]);
        }
        i = i + 1;
        if byte_index > usize::MAX - len {
            proof {
                assert(t@.take(i as int).drop_last() =~= t@.take(i - 1));
            }
            break;
        }
        byte_index = byte_index + len;
    }
    proof {
        lemma_count_before(t@, offset as int, i as int);
    }
    i
}

/// The characters of `t` that start at a byte offset in `from..to`.
pub fn text_between(t: &Vec<char>, from: usize, to: usize) -> (r: Vec<char>)
    ensures
        r@ == spec_text_between(t@, from as int, to as int),
{
    let a = char_index(t, from);
    let b = char_index(t, to);
    let mut r: Vec<char> = Vec::new();
    if a <= b {
        let mut k: usize = a;
        proof {
            assert(r@ =~= t@.subrange(a as int, k as int));
        }
        while k < b
            invariant
                a <= k <= b,
                b <= t@.len(),
                r@ == t@.subrange(a as int, k as int),
            decreases b - k,
        {
            r.push(t[k]);
            k = k + 1;
            proof {
                assert(r@ =~= t@.subrange(a as int, k as int));
            }
        }
    }
    proof {
        if !(a <= b) {
            assert(r@ =~= Seq::<char>::empty());
        }
    }
    r
}

} // verus!
