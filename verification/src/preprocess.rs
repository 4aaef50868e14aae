use crate::lexer::{
    clone_kind, clone_token, kind_eq, lemma_kind_debug_eq, lex, push_kind_debug, spec_kind_debug, spec_kind_eq, Token, TokenKind,
};
use crate::source::{
    chars_of, spec_byte_len, lemma_byte_len_concat, spec_text_between, text_between, FileId, SourceFile, SourceMap, Span,
};
use crate::lex_rules::{spec_lex_from, spec_span, spec_tokens_match};
use crate::lexer::well_formed_tokens;
use crate::text::{push_char, push_str, push_u64, spec_decimal, string_from_chars};
use vstd::prelude::*;

verus! {

/// Errors of [`preprocess_file`]: a file could not be read, lexed or preprocessed.
#[derive(Debug, Clone, PartialEq, Eq)]
pub enum PreprocessFileError {
    Io { path: String, message: String },
    Lex { path: String, source: String, span: Span, message: String },
    Preprocess { path: String, source: String, span: Span, message: String },
}

#[derive(Debug, Clone, PartialEq, Eq)]
pub struct PreprocessError {
    pub message: String,
    pub span: Span,
}

/// The tokens of a preprocessed file, and the files they came from.
#[derive(Debug, Clone)]
pub struct PreprocessedFile {
    pub tokens: Vec<Token>,
    pub source_map: SourceMap,
}

/// A read result whose text, if any, fits the byte offsets of spans.
pub open spec fn text_fits(c: Result<String, String>) -> bool {
    match c {
        Ok(t) => spec_byte_len(t@) < usize::MAX,
        Err(_) => true,
    }
}

/// What the files of a compilation are known to hold: for each path read so
/// far, its text, or the message of the error that reading it gave.
pub struct FileStore {
    entries: Vec<(String, Result<String, String>)>,
}

impl FileStore {
    pub closed spec fn entries(&self) -> Seq<(String, Result<String, String>)> {
        self.entries@
    }

    /// What the store holds for `path`: its first entry.
    pub open spec fn spec_entry(&self, path: Seq<char>) -> Option<Result<String, String>> {
        spec_file_entry(self.entries(), path)
    }

    /// Every stored text fits the byte offsets of spans.
    pub open spec fn wf(&self) -> bool {
        forall|i: int| 0 <= i < self.entries().len() ==> text_fits(#[trigger] self.entries()[i].1)
    }

    pub fn new() -> (s: Self)
        ensures
            s.entries().len() == 0,
            s.wf(),
    {
        FileStore { entries: Vec::new() }
    }

    /// Records what reading `path` gave.
    pub fn insert(&mut self, path: String, contents: Result<String, String>)
        requires
            old(self).wf(),
            text_fits(contents),
        ensures
            final(self).wf(),
            final(self).entries() == old(self).entries().push((path, contents)),
    {
        self.entries.push((path, contents));
    }

    /// What is known of `path`: the first entry recorded for it.
    pub fn lookup(&self, path: &String) -> (r: Option<&Result<String, String>>)
        requires
            self.wf(),
        ensures
            r matches Some(c) ==> exists|i: int| 0 <= i < self.entries().len() && self.entries()[i].0@ == path@
                && self.entries()[i].1 == *c,
            r matches Some(c) ==> text_fits(*c),
            r is None ==> forall|i: int| 0 <= i < self.entries().len() ==> self.entries()[i].0@ != path@,
            r matches Some(c) ==> self.spec_entry(path@) == Some(*c),
            r is None <==> self.spec_entry(path@) is None,
    {
        let mut i: usize = 0;
        proof {
            assert(self.entries@.skip(0) =~= self.entries@);
        }
        while i < self.entries.len()
            invariant
                self.wf(),
                i <= self.entries@.len(),
                forall|k: int| 0 <= k < i ==> self.entries@[k].0@ != path@,
                spec_file_entry(self.entries@, path@) == spec_file_entry(self.entries@.skip(i as int), path@),
            decreases self.entries.len() - i,
        {
            proof {
                assert(self.entries@.skip(i as int)[0] == self.entries@[i as int]);
                assert(self.entries@.skip(i as int).drop_first() =~= self.entries@.skip(i + 1));
            }
            if self.entries[i].0 == *path {
                proof {
                    assert(text_fits(self.entries()[i as int].1));
                    assert(self.entries()[i as int].0@ == path@);
                }
                return Some(&self.entries[i].1);
            }
            i = i + 1;
        }
        proof {
            assert(self.entries@.skip(i as int) =~= Seq::<(String, Result<String, String>)>::empty());
        }
        None
    }
}

/// The first entry recorded for `path`.
pub open spec fn spec_file_entry(entries: Seq<(String, Result<String, String>)>, path: Seq<char>) -> Option<Result<String, String>>
    decreases entries.len(),
{
    if entries.len() == 0 {
        None
    } else if entries[0].0@ == path {
        Some(entries[0].1)
    } else {
        spec_file_entry(entries.drop_first(), path)
    }
}

/// Where `<name>` is found, trying the include directories from `i` on: the
/// first candidate whose text the store holds (`Ok`), the first candidate the
/// store has no entry for yet (`Err(Some(..))`), or none (`Err(None)`); a
/// candidate whose reading failed is passed over.
pub open spec fn spec_angle_search(
    dirs: Seq<Seq<char>>,
    i: int,
    name: Seq<char>,
    entries: Seq<(String, Result<String, String>)>,
) -> Result<Seq<char>, Option<Seq<char>>>
    decreases dirs.len() - i,
{
    if i < 0 || i >= dirs.len() {
        Err(None)
    } else {
        let c = spec_join(dirs[i], name);
        match spec_file_entry(entries, c) {
            Some(Ok(_)) => Ok(c),
            Some(Err(_)) => spec_angle_search(dirs, i + 1, name, entries),
            None => Err(Some(c)),
        }
    }
}

/// The arguments of a macro call read from `p` on, inside the parentheses:
/// `depth` parentheses are open within the current argument `cur`, and the
/// arguments before it are `acc`. The arguments and the position past the
/// closing `)`, or `None` where the tokens run out first.
pub open spec fn spec_args_from(ts: Seq<Token>, p: int, depth: nat, cur: Seq<Token>, acc: Seq<Seq<Token>>) -> Option<
    (Seq<Seq<Token>>, int),
>
    decreases ts.len() - p,
{
    if p < 0 || p >= ts.len() {
        None
    } else if ts[p].kind is LParen {
        spec_args_from(ts, p + 1, depth + 1, cur.push(ts[p]), acc)
    } else if ts[p].kind is RParen {
        if depth == 0 {
            Some((acc.push(cur), p + 1))
        } else {
            spec_args_from(ts, p + 1, (depth - 1) as nat, cur.push(ts[p]), acc)
        }
    } else if ts[p].kind is Comma && depth == 0 {
        spec_args_from(ts, p + 1, 0, Seq::empty(), acc.push(cur))
    } else if ts[p].kind is Eof {
        None
    } else {
        spec_args_from(ts, p + 1, depth, cur.push(ts[p]), acc)
    }
}

/// The arguments of a macro call whose `(` is at `p`: none for `()`, else the
/// comma-separated runs of tokens at parenthesis depth zero up to the matching
/// `)`; with the position past it.
pub open spec fn spec_macro_args(ts: Seq<Token>, p: int) -> Option<(Seq<Seq<Token>>, int)> {
    if 0 <= p < ts.len() && ts[p].kind is LParen {
        if p + 1 < ts.len() && ts[p + 1].kind is RParen {
            Some((Seq::empty(), p + 2))
        } else {
            spec_args_from(ts, p + 1, 0, Seq::empty(), Seq::empty())
        }
    } else {
        None
    }
}

/// Argument lists that agree argument by argument, token by token.
pub open spec fn spec_args_match(a: Seq<Vec<Token>>, b: Seq<Seq<Token>>) -> bool {
    &&& a.len() == b.len()
    &&& forall|i: int| 0 <= i < a.len() ==> tokens_match((#[trigger] a[i])@, b[i])
}

/// The parameter names of a macro definition read from `p` on, after `(`:
/// identifiers separated by commas up to `)`, none after a trailing comma; the
/// names and the position past the `)`.
pub open spec fn spec_params_from(ts: Seq<Token>, p: int, acc: Seq<Seq<char>>) -> Option<(Seq<Seq<char>>, int)>
    decreases ts.len() - p,
{
    if !(0 <= p && p + 1 < ts.len()) {
        None
    } else {
        match ts[p].kind {
            TokenKind::Ident(n) => {
                let acc2 = acc.push(n@);
                if ts[p + 1].kind is Comma {
                    if p + 2 < ts.len() && ts[p + 2].kind is RParen {
                        None
                    } else {
                        spec_params_from(ts, p + 2, acc2)
                    }
                } else if ts[p + 1].kind is RParen {
                    Some((acc2, p + 2))
                } else {
                    None
                }
            },
            _ => None,
        }
    }
}

/// The parameter list of a macro definition whose `(` is at `p`.
pub open spec fn spec_macro_params(ts: Seq<Token>, p: int) -> Option<(Seq<Seq<char>>, int)> {
    if 0 <= p && p + 1 < ts.len() && ts[p].kind is LParen {
        if ts[p + 1].kind is RParen {
            Some((Seq::empty(), p + 2))
        } else {
            spec_params_from(ts, p + 1, Seq::empty())
        }
    } else {
        None
    }
}

/// `after` is `before` with one more file, of the given path and text, at its end.
pub open spec fn spec_one_file_added(before: Seq<SourceFile>, after: Seq<SourceFile>, path: Seq<char>, text: Seq<char>) -> bool {
    &&& after.len() == before.len() + 1
    &&& after.take(before.len() as int) == before
    &&& after[before.len() as int].path_chars() == path
    &&& after[before.len() as int].text_chars() == text
}

/// `toks` is what lexing `source` as the file `fid` gives.
pub open spec fn spec_lexes_to(source: Seq<char>, fid: FileId, toks: Seq<Token>) -> bool {
    match spec_lex_from(source, 0, seq![]) {
        Ok(ts) => spec_tokens_match(toks.drop_last(), ts, source, fid) && well_formed_tokens(
            toks,
            fid,
            spec_byte_len(source) as usize,
        ),
        Err(_) => false,
    }
}

/// The result of one attempt at preprocessing a file: done, or stopped at a
/// file whose contents are not in the store yet.
pub enum FileStep {
    Done(Result<PreprocessedFile, PreprocessFileError>),
    NeedFile(String),
}

pub enum MacroDef {
    ObjectLike(Vec<Token>),
    FunctionLike { params: Vec<String>, replacement: Vec<Token> },
}

/// One level of `#ifdef`/`#ifndef` nesting.
#[derive(Debug, Clone, Copy, PartialEq, Eq, Structural)]
pub struct ConditionalFrame {
    pub parent_active: bool,
    pub current_active: bool,
    pub branch_taken: bool,
    pub saw_else: bool,
}

/// The conditional stack: the outermost frame has an active parent, each
/// frame's parent is the frame below it, and no frame is active when its parent is not.
pub open spec fn frames_consistent(frames: Seq<ConditionalFrame>) -> bool {
    &&& forall|i: int| 0 <= i < frames.len() ==> (#[trigger] frames[i]).current_active ==> frames[i].parent_active
    &&& frames.len() > 0 ==> frames[0].parent_active
    &&& forall|i: int| 0 < i < frames.len() ==> (#[trigger] frames[i]).parent_active == frames[i - 1].current_active
}

/// Text is active when every enclosing conditional branch is.
/// Two tokens agree: the same kind (identifier and string contents by value) and the same span.
pub open spec fn spec_same_token(a: Token, b: Token) -> bool {
    spec_kind_eq(a.kind, b.kind) && a.span == b.span
}

/// The tokens without the line breaks.
pub open spec fn spec_without_newlines(ts: Seq<Token>) -> Seq<Token>
    decreases ts.len(),
{
    if ts.len() == 0 {
        Seq::empty()
    } else if ts.last().kind is Newline {
        spec_without_newlines(ts.drop_last())
    } else {
        spec_without_newlines(ts.drop_last()).push(ts.last())
    }
}

/// No token of `ts` from position `p` on, but the last, is a `#` or an end marker.
pub open spec fn spec_plain_from(ts: Seq<Token>, p: int) -> bool {
    forall|k: int| p <= k < ts.len() - 1 ==> !((#[trigger] ts[k]).kind is Hash) && !(ts[k].kind is Eof)
}

proof fn lemma_tokens_match_trans(a: Seq<Token>, b: Seq<Token>, c: Seq<Token>)
    requires
        tokens_match(a, b),
        tokens_match(b, c),
    ensures
        tokens_match(a, c),
{
    assert forall|i: int| 0 <= i < a.len() implies spec_same_token(#[trigger] a[i], c[i]) by {
        assert(spec_same_token(a[i], b[i]));
        assert(spec_same_token(b[i], c[i]));
    }
}

proof fn lemma_without_newlines_push(ts: Seq<Token>, t: Token)
    ensures
        spec_without_newlines(ts.push(t)) == if t.kind is Newline {
            spec_without_newlines(ts)
        } else {
            spec_without_newlines(ts).push(t)
        },
{
    assert(ts.push(t).drop_last() =~= ts);
}

/// Appending tokens that hold no line break keeps them all.
proof fn lemma_without_newlines_append(a: Seq<Token>, b: Seq<Token>)
    requires
        forall|i: int| 0 <= i < b.len() ==> !((#[trigger] b[i]).kind is Newline),
    ensures
        spec_without_newlines(a + b) == spec_without_newlines(a) + b,
    decreases b.len(),
{
    if b.len() == 0 {
        assert(a + b =~= a);
        assert(spec_without_newlines(a) + b =~= spec_without_newlines(a));
    } else {
        lemma_without_newlines_append(a, b.drop_last());
        assert((a + b).drop_last() =~= a + b.drop_last());
        assert((a + b).last() == b.last());
        assert(!(b[b.len() - 1].kind is Newline));
        assert(spec_without_newlines(a) + b =~= (spec_without_newlines(a) + b.drop_last()).push(b.last()));
    }
}

pub open spec fn frames_active(frames: Seq<ConditionalFrame>) -> bool {
    frames.len() == 0 || frames.last().current_active
}

/// The frame pushed by `#ifdef` (or `#ifndef`, with `condition_met` inverted).
pub open spec fn spec_ifdef_frame(parent_active: bool, condition_met: bool) -> ConditionalFrame {
    ConditionalFrame {
        parent_active,
        current_active: parent_active && condition_met,
        branch_taken: condition_met,
        saw_else: false,
    }
}

/// The frame after `#else`.
pub open spec fn spec_else_frame(f: ConditionalFrame) -> ConditionalFrame {
    ConditionalFrame {
        parent_active: f.parent_active,
        current_active: f.parent_active && !f.branch_taken,
        branch_taken: true,
        saw_else: true,
    }
}

/// Whether text is active: when every frame is active, exactly when the innermost one is.
pub proof fn lemma_active_means_all_active(frames: Seq<ConditionalFrame>)
    requires
        frames_consistent(frames),
    ensures
        frames_active(frames) <==> forall|i: int| 0 <= i < frames.len() ==> #[trigger] frames[i].current_active,
    decreases frames.len(),
{
    if frames.len() > 0 {
        let pre = frames.drop_last();
        assert forall|i: int| 0 <= i < pre.len() implies ((#[trigger] pre[i]).current_active ==> pre[i].parent_active) by {
            assert(pre[i] == frames[i]);
        }
        assert forall|i: int| 0 < i < pre.len() implies (#[trigger] pre[i]).parent_active == pre[i - 1].current_active by {
            assert(pre[i] == frames[i]);
            assert(pre[i - 1] == frames[i - 1]);
        }
        lemma_active_means_all_active(pre);
        if frames.len() > 1 {
            assert(frames[frames.len() - 1].parent_active == frames[frames.len() - 2].current_active);
        }
        if frames_active(frames) {
            assert forall|i: int| 0 <= i < frames.len() implies #[trigger] frames[i].current_active by {
                if i < frames.len() - 1 {
                    assert(pre[i] == frames[i]);
                }
            }
        }
    }
}

/// `#ifdef` keeps the stack consistent.
pub proof fn lemma_push_frame_consistent(frames: Seq<ConditionalFrame>, condition_met: bool)
    requires
        frames_consistent(frames),
    ensures
        frames_consistent(frames.push(spec_ifdef_frame(frames_active(frames), condition_met))),
{
    let f = spec_ifdef_frame(frames_active(frames), condition_met);
    let g = frames.push(f);
    assert forall|i: int| 0 < i < g.len() implies (#[trigger] g[i]).parent_active == g[i - 1].current_active by {
        if i < frames.len() {
            assert(g[i] == frames[i]);
        }
        assert(g[i - 1] == frames[i - 1]);
    }
    assert forall|i: int| 0 <= i < g.len() implies ((#[trigger] g[i]).current_active ==> g[i].parent_active) by {
        if i < frames.len() {
            assert(g[i] == frames[i]);
        }
    }
}

/// `#else` keeps the stack consistent.
pub proof fn lemma_else_frame_consistent(frames: Seq<ConditionalFrame>)
    requires
        frames_consistent(frames),
        frames.len() > 0,
    ensures
        frames_consistent(frames.update(frames.len() - 1, spec_else_frame(frames.last()))),
{
    let n = frames.len() - 1;
    let g = frames.update(n, spec_else_frame(frames.last()));
    assert forall|i: int| 0 < i < g.len() implies (#[trigger] g[i]).parent_active == g[i - 1].current_active by {
        assert(g[i - 1] == frames[i - 1]);
        if i < n {
            assert(g[i] == frames[i]);
        }
    }
    assert forall|i: int| 0 <= i < g.len() implies ((#[trigger] g[i]).current_active ==> g[i].parent_active) by {
        if i < n {
            assert(g[i] == frames[i]);
        }
    }
}

/// `#endif` keeps the stack consistent.
pub proof fn lemma_pop_frame_consistent(frames: Seq<ConditionalFrame>)
    requires
        frames_consistent(frames),
        frames.len() > 0,
    ensures
        frames_consistent(frames.drop_last()),
{
    let g = frames.drop_last();
    assert forall|i: int| 0 < i < g.len() implies (#[trigger] g[i]).parent_active == g[i - 1].current_active by {
        assert(g[i] == frames[i]);
        assert(g[i - 1] == frames[i - 1]);
    }
    assert forall|i: int| 0 <= i < g.len() implies ((#[trigger] g[i]).current_active ==> g[i].parent_active) by {
        assert(g[i] == frames[i]);
    }
}

/// `source` with every occurrence of `pat` removed, scanning left to right.
pub open spec fn spec_remove_all(source: Seq<char>, pat: Seq<char>) -> Seq<char>
    decreases source.len(),
{
    if source.len() == 0 || pat.len() == 0 {
        source
    } else if pat.len() <= source.len() && source.take(pat.len() as int) == pat {
        spec_remove_all(source.skip(pat.len() as int), pat)
    } else {
        seq![source[0]] + spec_remove_all(source.skip(1), pat)
    }
}

/// Backslash-CRLF pairs removed first, then backslash-newline pairs.
pub open spec fn spec_splice(source: Seq<char>) -> Seq<char> {
    spec_remove_all(spec_remove_all(source, seq!['\\', '\r', '\n']), seq!['\\', '\n'])
}

fn starts_with_at(s: &Vec<char>, i: usize, pat: &[char]) -> (b: bool)
    requires
        i <= s@.len(),
    ensures
        b == (pat@.len() <= s@.len() - i && s@.skip(i as int).take(pat@.len() as int) == pat@),
{
    if pat.len() > s.len() - i {
        return false;
    }
    let mut k: usize = 0;
    while k < pat.len()
        invariant
            i <= s@.len(),
            pat@.len() <= s@.len() - i,
            k <= pat@.len(),
            forall|j: int| 0 <= j < k ==> s@[i + j] == pat@[j],
        decreases pat.len() - k,
    {
        assert(i + k < s.len());
        if s[i + k] != pat[k] {
            proof {
                assert(s@.skip(i as int).take(pat@.len() as int)[k as int] != pat@[k as int]);
            }
            return false;
        }
        k = k + 1;
    }
    proof {
        assert(s@.skip(i as int).take(pat@.len() as int) =~= pat@);
    }
    true
}

fn remove_all(s: &Vec<char>, pat: &[char]) -> (r: Vec<char>)
    requires
        pat@.len() > 0,
    ensures
        r@ == spec_remove_all(s@, pat@),
{
    let mut out: Vec<char> = Vec::new();
    let mut i: usize = 0;
    proof {
        assert(s@.skip(0) =~= s@);
        assert(out@ + spec_remove_all(s@, pat@) =~= spec_remove_all(s@, pat@));
    }
    while i < s.len()
        invariant
            pat@.len() > 0,
            i <= s@.len(),
            out@ + spec_remove_all(s@.skip(i as int), pat@) == spec_remove_all(s@, pat@),
        decreases s.len() - i,
    {
        let ghost rest = s@.skip(i as int);
        if starts_with_at(s, i, pat) {
            proof {
                assert(rest.skip(pat@.len() as int) =~= s@.skip(i + pat@.len()));
            }
            i = i + pat.len();
        } else {
            proof {
                assert(rest.skip(1) =~= s@.skip(i + 1));
                assert(out@.push(s@[i as int]) + spec_remove_all(rest.skip(1), pat@) =~= out@ + (seq![rest[0]]
                    + spec_remove_all(rest.skip(1), pat@)));
            }
            out.push(s[i]);
            i = i + 1;
        }
    }
    proof {
        assert(s@.skip(i as int) =~= Seq::<char>::empty());
        assert(out@ + Seq::<char>::empty() =~= out@);
    }
    out
}

/// Removes escaped newlines (a backslash before CRLF or LF), joining continued lines.
pub fn splice_escaped_newlines(source: &str) -> (r: String)
    ensures
        r@ == spec_splice(source@),
{
    let chars = crate::source::chars_of(source);
    let a = remove_all(&chars, &['\\', '\r', '\n']);
    let b = remove_all(&a, &['\\', '\n']);
    string_from_chars(&b)
}

/// The replacement of a function-like macro use: each identifier token that
/// names a parameter replaced by the tokens of the matching argument.
pub open spec fn spec_substitute(params: Seq<String>, args: Seq<Vec<Token>>, replacement: Seq<Token>) -> Seq<Token>
    decreases replacement.len(),
{
    if replacement.len() == 0 {
        Seq::empty()
    } else {
        let t = replacement.last();
        spec_substitute(params, args, replacement.drop_last()) + match spec_param_index(params, t.kind) {
            Some(i) => args[i]@,
            None => seq![t],
        }
    }
}

/// The position of the first parameter spelled as the identifier token `k`.
pub open spec fn spec_param_index(params: Seq<String>, k: TokenKind) -> Option<int> {
    match k {
        TokenKind::Ident(name) => if exists|i: int| 0 <= i < params.len() && params[i]@ == name@ {
            Some(choose|i: int| 0 <= i < params.len() && params[i]@ == name@ && forall|j: int| 0 <= j < i ==> params[j]@ != name@)
        } else {
            None
        },
        _ => None,
    }
}

/// Two token sequences that agree token by token (see [`spec_same_token`]).
pub open spec fn tokens_match(a: Seq<Token>, b: Seq<Token>) -> bool {
    &&& a.len() == b.len()
    &&& forall|i: int| 0 <= i < a.len() ==> spec_same_token(#[trigger] a[i], b[i])
}

proof fn lemma_tokens_match_append(a1: Seq<Token>, b1: Seq<Token>, a2: Seq<Token>, b2: Seq<Token>)
    requires
        tokens_match(a1, b1),
        tokens_match(a2, b2),
    ensures
        tokens_match(a1 + a2, b1 + b2),
{
    assert forall|i: int| 0 <= i < (a1 + a2).len() implies spec_kind_eq(#[trigger] (a1 + a2)[i].kind, (b1 + b2)[i].kind)
        && (a1 + a2)[i].span == (b1 + b2)[i].span by {
        if i < a1.len() {
            assert((a1 + a2)[i] == a1[i]);
            assert((b1 + b2)[i] == b1[i]);
        } else {
            assert((a1 + a2)[i] == a2[i - a1.len()]);
            assert((b1 + b2)[i] == b2[i - a1.len()]);
        }
    }
}

/// Copies of the tokens, appended to `out`.
fn extend_cloned(out: &mut Vec<Token>, tokens: &Vec<Token>)
    ensures
        final(out)@.len() == old(out)@.len() + tokens@.len(),
        final(out)@.take(old(out)@.len() as int) == old(out)@,
        tokens_match(final(out)@.skip(old(out)@.len() as int), tokens@),
{
    let ghost start = out@.len();
    let mut i: usize = 0;
    while i < tokens.len()
        invariant
            i <= tokens@.len(),
            out@.len() == start + i,
            out@.take(start as int) == old(out)@,
            start == old(out)@.len(),
            tokens_match(out@.skip(start as int), tokens@.take(i as int)),
        decreases tokens.len() - i,
    {
        let t = clone_token(&tokens[i]);
        let ghost prev = out@;
        out.push(t);
        i = i + 1;
        proof {
            assert(out@.take(start as int) =~= prev.take(start as int));
            assert forall|j: int| 0 <= j < out@.skip(start as int).len() implies spec_kind_eq(
                #[trigger] out@.skip(start as int)[j].kind, tokens@.take(i as int)[j].kind)
                && out@.skip(start as int)[j].span == tokens@.take(i as int)[j].span by {
                if j < i - 1 {
                    assert(out@.skip(start as int)[j] == prev.skip(start as int)[j]);
                    assert(tokens@.take(i as int)[j] == tokens@.take(i - 1)[j]);
                }
            }
        }
    }
    proof {
        assert(tokens@.take(i as int) =~= tokens@);
    }
}

/// The position of the first parameter named as `name`, if any.
fn find_param(params: &Vec<String>, name: &String) -> (r: Option<usize>)
    ensures
        r matches Some(i) ==> i < params@.len() && params@[i as int]@ == name@
            && forall|j: int| 0 <= j < i ==> params@[j]@ != name@,
        r is None ==> forall|j: int| 0 <= j < params@.len() ==> params@[j]@ != name@,
{
    let mut i: usize = 0;
    while i < params.len()
        invariant
            i <= params@.len(),
            forall|j: int| 0 <= j < i ==> params@[j]@ != name@,
        decreases params.len() - i,
    {
        if params[i] == *name {
            return Some(i);
        }
        i = i + 1;
    }
    None
}

/// Substitutes the arguments of a function-like macro use into its replacement.
/// Fails, pointing at the call, when the number of arguments differs from the number of parameters.
pub fn expand_function_like(
    params: &Vec<String>,
    replacement: &Vec<Token>,
    args: &Vec<Vec<Token>>,
    call_span: Span,
) -> (r: Result<Vec<Token>, PreprocessError>)
    ensures
        params@.len() != args@.len() <==> r is Err,
        r matches Err(e) ==> e.span == call_span,
        r matches Ok(out) ==> tokens_match(out@, spec_substitute(params@, args@, replacement@)),
{
    if params.len() != args.len() {
        let mut msg = String::from_str("macro was defined with '");
        push_u64(&mut msg, params.len() as u64);
        push_str(&mut msg, "' parameters, cannot be called with '");
        push_u64(&mut msg, args.len() as u64);
        push_str(&mut msg, "' arguments");
        return Err(PreprocessError { message: msg, span: call_span });
    }
    let mut output: Vec<Token> = Vec::new();
    let mut i: usize = 0;
    while i < replacement.len()
        invariant
            params@.len() == args@.len(),
            i <= replacement@.len(),
            tokens_match(output@, spec_substitute(params@, args@, replacement@.take(i as int))),
        decreases replacement.len() - i,
    {
        let token = &replacement[i];
        let ghost prev = output@;
        proof {
            assert(replacement@.take(i + 1).drop_last() =~= replacement@.take(i as int));
            assert(replacement@.take(i + 1).last() == replacement@[i as int]);
        }
        let found = match &token.kind {
            TokenKind::Ident(name) => find_param(params, name),
            _ => None,
        };
        match found {
            Some(k) => {
                proof {
                    let name = token.kind->Ident_0;
                    assert(exists|j: int| 0 <= j < params@.len() && params@[j]@ == name@);
                    let c = choose|j: int| 0 <= j < params@.len() && params@[j]@ == name@ && forall|m: int| 0 <= m < j ==> params@[m]@ != name@;
                    assert(c == k as int) by {
                        if c < k as int {
                        } else if c > k as int {
                        }
                    }
                }
                extend_cloned(&mut output, &args[k]);
                proof {
                    assert(output@.take(prev.len() as int) =~= prev);
                    assert(output@ =~= prev + output@.skip(prev.len() as int));
                    lemma_tokens_match_append(prev, spec_substitute(params@, args@, replacement@.take(i as int)),
                        output@.skip(prev.len() as int), args@[k as int]@);
                }
            },
            None => {
                let t = clone_token(token);
                output.push(t);
                proof {
                    assert(spec_param_index(params@, token.kind) is None);
                    assert(output@ =~= prev + seq![t]);
                    lemma_tokens_match_append(prev, spec_substitute(params@, args@, replacement@.take(i as int)),
                        seq![t], seq![*token]);
                }
            },
        }
        i = i + 1;
    }
    proof {
        assert(replacement@.take(i as int) =~= replacement@);
    }
    Ok(output)
}


/// Removing text never makes it longer in bytes.
pub proof fn lemma_remove_all_byte_len(source: Seq<char>, pat: Seq<char>)
    ensures
        spec_byte_len(spec_remove_all(source, pat)) <= spec_byte_len(source),
    decreases source.len(),
{
    if source.len() == 0 || pat.len() == 0 {
    } else if pat.len() <= source.len() && source.take(pat.len() as int) == pat {
        lemma_remove_all_byte_len(source.skip(pat.len() as int), pat);
        assert(source =~= source.take(pat.len() as int) + source.skip(pat.len() as int));
        lemma_byte_len_concat(source.take(pat.len() as int), source.skip(pat.len() as int));
    } else {
        lemma_remove_all_byte_len(source.skip(1), pat);
        assert(source =~= seq![source[0]] + source.skip(1));
        lemma_byte_len_concat(seq![source[0]], source.skip(1));
        lemma_byte_len_concat(seq![source[0]], spec_remove_all(source.skip(1), pat));
    }
}

/// The number of `false` entries.
pub open spec fn spec_count_false(flags: Seq<bool>) -> nat
    decreases flags.len(),
{
    if flags.len() == 0 {
        0
    } else {
        spec_count_false(flags.drop_last()) + if flags.last() { 0nat } else { 1nat }
    }
}

/// Marking an unmarked flag leaves one fewer unmarked.
pub proof fn lemma_count_false_set(flags: Seq<bool>, i: int)
    requires
        0 <= i < flags.len(),
        !flags[i],
    ensures
        spec_count_false(flags.update(i, true)) + 1 == spec_count_false(flags),
    decreases flags.len(),
{
    let g = flags.update(i, true);
    if i == flags.len() - 1 {
        assert(g.drop_last() =~= flags.drop_last());
    } else {
        lemma_count_false_set(flags.drop_last(), i);
        assert(g.drop_last() =~= flags.drop_last().update(i, true));
    }
}

/// The macros defined so far: distinct names, each with its definition.
pub struct MacroTable {
    entries: Vec<(String, MacroDef)>,
}

impl MacroTable {
    pub closed spec fn names(&self) -> Seq<Seq<char>> {
        self.entries@.map_values(|e: (String, MacroDef)| e.0@)
    }

    pub closed spec fn defs(&self) -> Seq<MacroDef> {
        self.entries@.map_values(|e: (String, MacroDef)| e.1)
    }

    /// No name is defined twice.
    pub closed spec fn wf(&self) -> bool {
        forall|i: int, j: int| 0 <= i < j < self.entries@.len() ==> self.entries@[i].0@ != self.entries@[j].0@
    }

    /// The definition of `name`, if it is defined.
    pub open spec fn spec_get(&self, name: Seq<char>) -> Option<MacroDef> {
        if exists|i: int| 0 <= i < self.names().len() && self.names()[i] == name {
            let i = choose|i: int| 0 <= i < self.names().len() && self.names()[i] == name;
            Some(self.defs()[i])
        } else {
            None
        }
    }

    /// Every macro of the table is object-like.
    pub open spec fn spec_objects_only(&self) -> bool {
        forall|i: int| 0 <= i < self.defs().len() ==> #[trigger] self.defs()[i] is ObjectLike
    }

    /// The position of `name` in the table, if it is defined.
    pub open spec fn spec_index(&self, name: Seq<char>) -> Option<int> {
        spec_name_index(self.names(), name)
    }

    /// The replacement of each object-like macro, in table order (`None` for a
    /// function-like one).
    pub closed spec fn reps(&self) -> Seq<Option<Seq<Token>>> {
        self.entries@.map_values(|e: (String, MacroDef)| spec_rep_of(e.1))
    }

    pub fn new() -> (t: Self)
        ensures
            t.wf(),
            t.names().len() == 0,
    {
        MacroTable { entries: Vec::new() }
    }

    pub fn len(&self) -> (n: usize)
        ensures
            n == self.names().len(),
    {
        self.entries.len()
    }

    /// The position of `name` in the table.
    fn find(&self, name: &String) -> (r: Option<usize>)
        requires
            self.wf(),
        ensures
            r matches Some(i) ==> i < self.names().len() && self.names()[i as int] == name@,
            r is None ==> forall|i: int| 0 <= i < self.names().len() ==> self.names()[i] != name@,
    {
        let mut i: usize = 0;
        while i < self.entries.len()
            invariant
                i <= self.entries@.len(),
                forall|k: int| 0 <= k < i ==> self.entries@[k].0@ != name@,
            decreases self.entries.len() - i,
        {
            if self.entries[i].0 == *name {
                return Some(i);
            }
            i = i + 1;
        }
        None
    }

    pub fn contains(&self, name: &String) -> (b: bool)
        requires
            self.wf(),
        ensures
            b == (self.spec_get(name@) is Some),
    {
        match self.find(name) {
            Some(i) => {
                proof {
                    assert(self.names()[i as int] == name@);
                }
                true
            },
            None => false,
        }
    }

    /// The definition of `name` and its position.
    pub fn get(&self, name: &String) -> (r: Option<(usize, &MacroDef)>)
        requires
            self.wf(),
        ensures
            r matches Some((i, d)) ==> i < self.names().len() && self.names()[i as int] == name@
                && *d == self.defs()[i as int] && self.spec_get(name@) == Some(*d) && self.spec_index(name@) == Some(i as int),
            r is None ==> self.spec_get(name@) is None && self.spec_index(name@) is None,
    {
        match self.find(name) {
            Some(i) => {
                proof {
                    assert(self.names()[i as int] == name@);
                    let j = choose|j: int| 0 <= j < self.names().len() && self.names()[j] == name@;
                    assert(j == i as int);
                }
                Some((i, &self.entries[i].1))
            },
            None => None,
        }
    }

    /// Defines `name`, replacing an earlier definition of the same name.
    pub fn insert(&mut self, name: String, def: MacroDef)
        requires
            old(self).wf(),
        ensures
            final(self).wf(),
            final(self).spec_get(name@) == Some(def),
            forall|n: Seq<char>| n != name@ ==> final(self).spec_get(n) == old(self).spec_get(n),
            forall|n: Seq<char>| (old(self).spec_get(n) is Some) ==> (final(self).spec_get(n) is Some),
            final(self).names() == spec_names_after(old(self).names(), name@),
            final(self).reps() == spec_reps_after(old(self).names(), old(self).reps(), name@, spec_rep_of(def)),
            def is ObjectLike && old(self).spec_objects_only() ==> final(self).spec_objects_only(),
    {
        let ghost name_v = name@;
        let ghost def_v = def;
        match self.find(&name) {
            Some(i) => {
                self.entries.set(i, (name, def));
                proof {
                    assert(self.names() =~= old(self).names());
                    let j0 = choose|j: int| 0 <= j < old(self).names().len() && old(self).names()[j] == name_v;
                    assert(j0 == i as int);
                    assert(spec_name_index(old(self).names(), name_v) == Some(i as int));
                    assert(self.reps() =~= old(self).reps().update(i as int, spec_rep_of(def_v)));
                    assert(self.defs() =~= old(self).defs().update(i as int, def_v));
                    let j = choose|j: int| 0 <= j < self.names().len() && self.names()[j] == name_v;
                    assert(j == i as int);
                    assert forall|n: Seq<char>| n != name_v implies final(self).spec_get(n) == old(self).spec_get(n) by {
                        if exists|k: int| 0 <= k < self.names().len() && self.names()[k] == n {
                            let k = choose|k: int| 0 <= k < self.names().len() && self.names()[k] == n;
                            assert(k != i);
                            assert(self.defs()[k] == old(self).defs()[k]);
                        }
                    }
                }
            },
            None => {
                self.entries.push((name, def));
                proof {
                    let n0 = old(self).names().len();
                    assert(self.names() =~= old(self).names().push(name_v));
                    assert(self.defs() =~= old(self).defs().push(def_v));
                    assert(spec_name_index(old(self).names(), name_v) is None);
                    assert(self.reps() =~= old(self).reps().push(spec_rep_of(def_v)));
                    assert(self.names()[n0 as int] == name_v);
                    let j = choose|j: int| 0 <= j < self.names().len() && self.names()[j] == name_v;
                    assert(j == n0) by {
                        if j < n0 {
                            assert(old(self).names()[j] == name_v);
                        }
                    }
                    assert forall|a: int, b: int| 0 <= a < b < self.entries@.len() implies self.entries@[a].0@
                        != self.entries@[b].0@ by {
                        if b < n0 {
                            assert(self.entries@[a] == old(self).entries@[a]);
                            assert(self.entries@[b] == old(self).entries@[b]);
                        } else {
                            assert(old(self).names()[a] == self.entries@[a].0@);
                        }
                    }
                    assert forall|n: Seq<char>| n != name_v implies final(self).spec_get(n) == old(self).spec_get(n) by {
                        if exists|k: int| 0 <= k < old(self).names().len() && old(self).names()[k] == n {
                            let k = choose|k: int| 0 <= k < old(self).names().len() && old(self).names()[k] == n;
                            assert(self.names()[k] == n);
                            let k2 = choose|k2: int| 0 <= k2 < self.names().len() && self.names()[k2] == n;
                            assert(k2 == k);
                        } else {
                            if exists|k: int| 0 <= k < self.names().len() && self.names()[k] == n {
                                let k = choose|k: int| 0 <= k < self.names().len() && self.names()[k] == n;
                                assert(k < n0);
                                assert(old(self).names()[k] == n);
                            }
                        }
                    }
                }
            },
        }
    }
}

/// The position of the first entry of `names` equal to `name`, if any.
pub open spec fn spec_name_index(names: Seq<Seq<char>>, name: Seq<char>) -> Option<int> {
    if exists|i: int| 0 <= i < names.len() && names[i] == name {
        Some(choose|i: int| 0 <= i < names.len() && names[i] == name)
    } else {
        None
    }
}

/// Two lists of macro replacements that agree entry by entry, token by token.
pub open spec fn spec_reps_match(a: Seq<Option<Seq<Token>>>, b: Seq<Option<Seq<Token>>>) -> bool {
    &&& a.len() == b.len()
    &&& forall|i: int| 0 <= i < a.len() ==> match (#[trigger] a[i], b[i]) {
        (Some(x), Some(y)) => tokens_match(x, y),
        (None, None) => true,
        _ => false,
    }
}

/// The expansion of `ts` by the object-like macros `names` with replacements
/// `reps` (`None` for a macro that is not object-like): each identifier that
/// names such a macro, not marked in `active`, becomes the expansion of the
/// macro's replacement, rescanned with the macro marked (so that it is not
/// expanded again inside itself); every other token stays.
pub open spec fn spec_expand(names: Seq<Seq<char>>, reps: Seq<Option<Seq<Token>>>, active: Seq<bool>, ts: Seq<Token>) -> Seq<Token>
    decreases spec_count_false(active), ts.len(),
{
    if ts.len() == 0 {
        Seq::empty()
    } else {
        let rest = spec_expand(names, reps, active, ts.drop_first());
        match spec_expansion_of(names, reps, active, ts[0]) {
            Some((i, rep)) => {
                proof {
                    lemma_count_false_set(active, i);
                }
                spec_expand(names, reps, active.update(i, true), rep) + rest
            },
            None => seq![ts[0]] + rest,
        }
    }
}

/// The macro that the token `t` calls for: its position and its object-like
/// replacement, when `t` names such a macro not marked in `active`.
pub open spec fn spec_expansion_of(names: Seq<Seq<char>>, reps: Seq<Option<Seq<Token>>>, active: Seq<bool>, t: Token) -> Option<
    (int, Seq<Token>),
> {
    match t.kind {
        TokenKind::Ident(n) => match spec_name_index(names, n@) {
            Some(i) => if 0 <= i < active.len() && i < reps.len() && !active[i] {
                match reps[i] {
                    Some(rep) => Some((i, rep)),
                    None => None,
                }
            } else {
                None
            },
            None => None,
        },
        _ => None,
    }
}

proof fn lemma_expand_append(names: Seq<Seq<char>>, reps: Seq<Option<Seq<Token>>>, active: Seq<bool>, a: Seq<Token>, b: Seq<Token>)
    ensures
        spec_expand(names, reps, active, a + b) == spec_expand(names, reps, active, a) + spec_expand(names, reps, active, b),
    decreases a.len(),
{
    if a.len() == 0 {
        assert(a + b =~= b);
        assert(spec_expand(names, reps, active, a) =~= Seq::<Token>::empty());
        assert(Seq::<Token>::empty() + spec_expand(names, reps, active, b) =~= spec_expand(names, reps, active, b));
    } else {
        assert((a + b).drop_first() =~= a.drop_first() + b);
        assert((a + b)[0] == a[0]);
        lemma_expand_append(names, reps, active, a.drop_first(), b);
        let ra = spec_expand(names, reps, active, a.drop_first());
        let rb = spec_expand(names, reps, active, b);
        match spec_expansion_of(names, reps, active, a[0]) {
            Some((i, rep)) => {
                let e = spec_expand(names, reps, active.update(i, true), rep);
                assert(e + (ra + rb) =~= (e + ra) + rb);
            },
            None => {
                assert(seq![a[0]] + (ra + rb) =~= (seq![a[0]] + ra) + rb);
            },
        }
    }
}

proof fn lemma_expand_one(names: Seq<Seq<char>>, reps: Seq<Option<Seq<Token>>>, active: Seq<bool>, t: Token)
    ensures
        spec_expand(names, reps, active, seq![t]) == match spec_expansion_of(names, reps, active, t) {
            Some((i, rep)) => spec_expand(names, reps, active.update(i, true), rep),
            None => seq![t],
        },
{
    let s = seq![t];
    assert(s.drop_first() =~= Seq::<Token>::empty());
    assert(s[0] == t);
    assert(spec_expand(names, reps, active, s.drop_first()) =~= Seq::<Token>::empty());
    match spec_expansion_of(names, reps, active, t) {
        Some((i, rep)) => {
            let e = spec_expand(names, reps, active.update(i, true), rep);
            assert(e + Seq::<Token>::empty() =~= e);
        },
        None => {
            assert(seq![t] + Seq::<Token>::empty() =~= seq![t]);
        },
    }
}

proof fn lemma_expand_congruent(
    names: Seq<Seq<char>>,
    r1: Seq<Option<Seq<Token>>>,
    r2: Seq<Option<Seq<Token>>>,
    active: Seq<bool>,
    a: Seq<Token>,
    b: Seq<Token>,
)
    requires
        spec_reps_match(r1, r2),
        tokens_match(a, b),
    ensures
        tokens_match(spec_expand(names, r1, active, a), spec_expand(names, r2, active, b)),
    decreases spec_count_false(active), a.len(),
{
    if a.len() > 0 {
        assert(tokens_match(a.drop_first(), b.drop_first())) by {
            assert forall|j: int| 0 <= j < a.drop_first().len() implies spec_same_token(#[trigger] a.drop_first()[j], b.drop_first()[j]) by {
                assert(spec_same_token(a[j + 1], b[j + 1]));
            }
        }
        lemma_expand_congruent(names, r1, r2, active, a.drop_first(), b.drop_first());
        assert(spec_same_token(a[0], b[0]));
        let ra = spec_expand(names, r1, active, a.drop_first());
        let rb = spec_expand(names, r2, active, b.drop_first());
        let xa = spec_expansion_of(names, r1, active, a[0]);
        let xb = spec_expansion_of(names, r2, active, b[0]);
        if let TokenKind::Ident(x) = a[0].kind {
            if let TokenKind::Ident(y) = b[0].kind {
                assert(x@ == y@);
                if let Some(i) = spec_name_index(names, x@) {
                    if 0 <= i < active.len() && i < r1.len() && !active[i] {
                        assert(match (r1[i], r2[i]) {
                            (Some(x), Some(y)) => tokens_match(x, y),
                            (None, None) => true,
                            _ => false,
                        });
                    }
                }
            }
        }
        assert(xa is Some <==> xb is Some);
        match xa {
            Some((i, rep1)) => {
                let rep2 = xb->Some_0.1;
                assert(xb->Some_0.0 == i);
                assert(tokens_match(rep1, rep2));
                lemma_count_false_set(active, i);
                lemma_expand_congruent(names, r1, r2, active.update(i, true), rep1, rep2);
                lemma_tokens_match_append(
                    spec_expand(names, r1, active.update(i, true), rep1),
                    spec_expand(names, r2, active.update(i, true), rep2),
                    ra,
                    rb,
                );
            },
            None => {
                lemma_tokens_match_append(seq![a[0]], seq![b[0]], ra, rb);
            },
        }
    }
}

/// The replacement that a definition gives an object-like macro (`None` for a
/// function-like one).
pub open spec fn spec_rep_of(d: MacroDef) -> Option<Seq<Token>> {
    match d {
        MacroDef::ObjectLike(r) => Some(r@),
        MacroDef::FunctionLike { .. } => None,
    }
}

/// The macro names after defining `n`: unchanged if it is already there, else
/// with `n` added at the end.
pub open spec fn spec_names_after(names: Seq<Seq<char>>, n: Seq<char>) -> Seq<Seq<char>> {
    match spec_name_index(names, n) {
        Some(_) => names,
        None => names.push(n),
    }
}

/// The replacements after defining `n` as `r`: in place of its old one, or added
/// at the end.
pub open spec fn spec_reps_after(names: Seq<Seq<char>>, reps: Seq<Option<Seq<Token>>>, n: Seq<char>, r: Option<Seq<Token>>) -> Seq<
    Option<Seq<Token>>,
> {
    match spec_name_index(names, n) {
        Some(i) => reps.update(i, r),
        None => reps.push(r),
    }
}

/// The first line break or end marker at or after `p`.
pub open spec fn spec_line_end(ts: Seq<Token>, p: int) -> int
    decreases ts.len() - p,
{
    if p < 0 || p >= ts.len() || ts[p].kind is Newline || ts[p].kind is Eof {
        p
    } else {
        spec_line_end(ts, p + 1)
    }
}

/// The first line break, `#` or end marker at or after `p`.
pub open spec fn spec_chunk_end(ts: Seq<Token>, p: int) -> int
    decreases ts.len() - p,
{
    if p < 0 || p >= ts.len() || ts[p].kind is Newline || ts[p].kind is Hash || ts[p].kind is Eof {
        p
    } else {
        spec_chunk_end(ts, p + 1)
    }
}

proof fn lemma_reps_after_match(names: Seq<Seq<char>>, reps: Seq<Option<Seq<Token>>>, n: Seq<char>, r1: Seq<Token>, r2: Seq<Token>)
    requires
        names.len() == reps.len(),
        tokens_match(r1, r2),
    ensures
        spec_reps_match(spec_reps_after(names, reps, n, Some(r1)), spec_reps_after(names, reps, n, Some(r2))),
{
    let a = spec_reps_after(names, reps, n, Some(r1));
    let b = spec_reps_after(names, reps, n, Some(r2));
    assert forall|i: int| 0 <= i < a.len() implies match (#[trigger] a[i], b[i]) {
        (Some(x), Some(y)) => tokens_match(x, y),
        (None, None) => true,
        _ => false,
    } by {
        if let Some(x) = a[i] {
            assert(tokens_match(x, x));
        }
    }
}

proof fn lemma_reps_match_symm(a: Seq<Option<Seq<Token>>>, b: Seq<Option<Seq<Token>>>)
    requires
        spec_reps_match(a, b),
    ensures
        spec_reps_match(b, a),
{
    assert forall|i: int| 0 <= i < b.len() implies match (#[trigger] b[i], a[i]) {
        (Some(x), Some(y)) => tokens_match(x, y),
        (None, None) => true,
        _ => false,
    } by {
        assert(match (a[i], b[i]) {
            (Some(x), Some(y)) => tokens_match(x, y),
            (None, None) => true,
            _ => false,
        });
        if let (Some(x), Some(y)) = (a[i], b[i]) {
            assert forall|j: int| 0 <= j < y.len() implies spec_same_token(#[trigger] y[j], x[j]) by {
                assert(spec_same_token(x[j], y[j]));
            }
        }
    }
}

proof fn lemma_reps_match_trans(a: Seq<Option<Seq<Token>>>, b: Seq<Option<Seq<Token>>>, c: Seq<Option<Seq<Token>>>)
    requires
        spec_reps_match(a, b),
        spec_reps_match(b, c),
    ensures
        spec_reps_match(a, c),
{
    assert forall|i: int| 0 <= i < a.len() implies match (#[trigger] a[i], c[i]) {
        (Some(x), Some(y)) => tokens_match(x, y),
        (None, None) => true,
        _ => false,
    } by {
        assert(match (a[i], b[i]) {
            (Some(x), Some(y)) => tokens_match(x, y),
            (None, None) => true,
            _ => false,
        });
        assert(match (b[i], c[i]) {
            (Some(x), Some(y)) => tokens_match(x, y),
            (None, None) => true,
            _ => false,
        });
        if let (Some(x), Some(y), Some(z)) = (a[i], b[i], c[i]) {
            lemma_tokens_match_trans(x, y, z);
        }
    }
}

proof fn lemma_reps_after_congruent(
    names: Seq<Seq<char>>,
    r1: Seq<Option<Seq<Token>>>,
    r2: Seq<Option<Seq<Token>>>,
    n: Seq<char>,
    x: Seq<Token>,
    y: Seq<Token>,
)
    requires
        names.len() == r1.len(),
        spec_reps_match(r1, r2),
        tokens_match(x, y),
    ensures
        spec_reps_match(spec_reps_after(names, r1, n, Some(x)), spec_reps_after(names, r2, n, Some(y))),
{
    let a = spec_reps_after(names, r1, n, Some(x));
    let b = spec_reps_after(names, r2, n, Some(y));
    assert forall|i: int| 0 <= i < a.len() implies match (#[trigger] a[i], b[i]) {
        (Some(u), Some(v)) => tokens_match(u, v),
        (None, None) => true,
        _ => false,
    } by {
        if i < r1.len() {
            assert(match (r1[i], r2[i]) {
                (Some(u), Some(v)) => tokens_match(u, v),
                (None, None) => true,
                _ => false,
            });
        }
    }
}

/// A run of tokens that are neither line breaks, `#` nor end markers, followed
/// by one that is, ends there.
proof fn lemma_chunk_end_at(ts: Seq<Token>, a: int, b: int)
    requires
        0 <= a <= b < ts.len(),
        forall|j: int| a <= j < b ==> !((#[trigger] ts[j]).kind is Newline) && !(ts[j].kind is Hash) && !(ts[j].kind is Eof),
        ts[b].kind is Newline || ts[b].kind is Hash || ts[b].kind is Eof,
    ensures
        spec_chunk_end(ts, a) == b,
    decreases b - a,
{
    if a < b {
        assert(!(ts[a].kind is Newline) && !(ts[a].kind is Hash) && !(ts[a].kind is Eof));
        lemma_chunk_end_at(ts, a + 1, b);
    }
}

/// A line ends at or after its start, within the tokens.
pub proof fn lemma_line_end_bounds(ts: Seq<Token>, p: int)
    requires
        0 <= p <= ts.len(),
    ensures
        p <= spec_line_end(ts, p) <= ts.len(),
    decreases ts.len() - p,
{
    if p < ts.len() && !(ts[p].kind is Newline || ts[p].kind is Eof) {
        lemma_line_end_bounds(ts, p + 1);
    }
}

/// A run of tokens ends at or after its start, within the tokens.
pub proof fn lemma_chunk_end_bounds(ts: Seq<Token>, p: int)
    requires
        0 <= p <= ts.len(),
    ensures
        p <= spec_chunk_end(ts, p) <= ts.len(),
    decreases ts.len() - p,
{
    if p < ts.len() && !(ts[p].kind is Newline || ts[p].kind is Hash || ts[p].kind is Eof) {
        lemma_chunk_end_bounds(ts, p + 1);
    }
}

/// A `#define` of an object-like macro at `p`: `#`, `define`, a name, then
/// anything but `(`.
pub open spec fn spec_object_define_at(ts: Seq<Token>, p: int) -> bool {
    &&& 0 <= p && p + 3 < ts.len()
    &&& ts[p].kind is Hash
    &&& ts[p + 1].kind matches TokenKind::Ident(d) && d@ == "define"@
    &&& ts[p + 2].kind is Ident
    &&& !(ts[p + 3].kind is LParen)
}

/// Where scanning goes on after skipping to the end of the line from `p`: past
/// the line break, or at the end marker.
pub open spec fn spec_after_line(ts: Seq<Token>, p: int) -> int {
    let q = spec_line_end(ts, p);
    if 0 <= q < ts.len() && ts[q].kind is Newline {
        q + 1
    } else {
        q
    }
}

/// What the tokens from `p` on preprocess to, with the macros `names` and
/// `reps` defined so far and the conditional frames `frames` open (of which
/// the first `depth` were open before this input), when its directives are
/// `#define`s of object-like macros and the conditionals `#ifdef`, `#ifndef`,
/// `#else` and `#endif`: line breaks go; a definition takes effect for the
/// text after it where it stands in active text; a conditional opens, flips
/// or closes a frame; each run of other tokens is expanded (see
/// [`spec_expand`]) where the text is active and dropped where it is not;
/// other directives are skipped in inactive text; and the end marker closes
/// the output once the conditionals opened in this input are closed. `None`
/// where the input does something else (an include, a function-like macro,
/// an error).
pub open spec fn spec_directives_output(
    ts: Seq<Token>,
    p: int,
    names: Seq<Seq<char>>,
    reps: Seq<Option<Seq<Token>>>,
    frames: Seq<ConditionalFrame>,
    depth: nat,
) -> Option<Seq<Token>>
    decreases ts.len() - p,
{
    if !(0 <= p < ts.len()) {
        None
    } else if ts[p].kind is Eof {
        if frames.len() == depth {
            Some(seq![ts[p]])
        } else {
            None
        }
    } else if ts[p].kind is Newline {
        spec_directives_output(ts, p + 1, names, reps, frames, depth)
    } else if ts[p].kind is Hash {
        let active = frames_active(frames);
        if p + 2 >= ts.len() {
            None
        } else {
            proof {
                lemma_line_end_bounds(ts, p + 1);
                lemma_line_end_bounds(ts, p + 2);
                lemma_line_end_bounds(ts, p + 3);
            }
            match ts[p + 1].kind {
                TokenKind::Ident(d) => if d@ == "define"@ {
                    if !active {
                        spec_directives_output(ts, spec_after_line(ts, p + 1), names, reps, frames, depth)
                    } else if spec_object_define_at(ts, p) {
                        let n = ts[p + 2].kind->Ident_0@;
                        let q = spec_line_end(ts, p + 3);
                        spec_directives_output(
                            ts,
                            spec_after_line(ts, p + 3),
                            spec_names_after(names, n),
                            spec_reps_after(names, reps, n, Some(ts.subrange(p + 3, q))),
                            frames,
                            depth,
                        )
                    } else {
                        None
                    }
                } else if d@ == "ifdef"@ || d@ == "ifndef"@ {
                    match ts[p + 2].kind {
                        TokenKind::Ident(n) => {
                            let defined = spec_name_index(names, n@) is Some;
                            let met = if d@ == "ifdef"@ { defined } else { !defined };
                            spec_directives_output(
                                ts,
                                spec_after_line(ts, p + 3),
                                names,
                                reps,
                                frames.push(spec_ifdef_frame(active, met)),
                                depth,
                            )
                        },
                        _ => None,
                    }
                } else if d@ == "endif"@ {
                    if frames.len() > 0 {
                        spec_directives_output(ts, spec_after_line(ts, p + 2), names, reps, frames.drop_last(), depth)
                    } else {
                        None
                    }
                } else if d@ == "include"@ || active {
                    None
                } else {
                    spec_directives_output(ts, spec_after_line(ts, p + 1), names, reps, frames, depth)
                },
                TokenKind::KwElse => if frames.len() > 0 && !frames.last().saw_else {
                    spec_directives_output(
                        ts,
                        spec_after_line(ts, p + 2),
                        names,
                        reps,
                        frames.update(frames.len() - 1, spec_else_frame(frames.last())),
                        depth,
                    )
                } else {
                    None
                },
                _ => None,
            }
        }
    } else {
        let q = spec_chunk_end(ts, p + 1);
        proof {
            lemma_chunk_end_bounds(ts, p + 1);
        }
        match spec_directives_output(ts, q, names, reps, frames, depth) {
            Some(rest) => if frames_active(frames) {
                Some(spec_expand(names, reps, Seq::new(names.len(), |i: int| false), ts.subrange(p, q)) + rest)
            } else {
                Some(rest)
            },
            None => None,
        }
    }
}

/// A cursor over a chunk of tokens.
struct TokenScanner {
    tokens: Vec<Token>,
    pos: usize,
}

impl TokenScanner {
    fn is_done(&self) -> (b: bool)
        ensures
            b == (self.pos >= self.tokens@.len()),
    {
        self.pos >= self.tokens.len()
    }

    fn peek_is(&self, kind: &TokenKind) -> (b: bool)
        ensures
            b == (self.pos < self.tokens@.len() && spec_kind_eq(self.tokens@[self.pos as int].kind, *kind)),
    {
        if self.pos < self.tokens.len() {
            kind_eq(&self.tokens[self.pos].kind, kind)
        } else {
            false
        }
    }

    fn advance(&mut self) -> (t: Option<Token>)
        requires
            old(self).pos <= old(self).tokens@.len(),
        ensures
            final(self).pos <= final(self).tokens@.len(),
            final(self).tokens@ == old(self).tokens@,
            old(self).pos < old(self).tokens@.len() ==> final(self).pos == old(self).pos + 1 && t is Some,
            old(self).pos < old(self).tokens@.len() ==> (t matches Some(tok) && spec_same_token(
                tok,
                old(self).tokens@[old(self).pos as int],
            )),
            old(self).pos >= old(self).tokens@.len() ==> final(self).pos == old(self).pos && t is None,
    {
        if self.pos < self.tokens.len() {
            let t = clone_token(&self.tokens[self.pos]);
            self.pos = self.pos + 1;
            Some(t)
        } else {
            None
        }
    }

    fn expect_lparen(&mut self, name_span: Span) -> (r: Result<Token, PreprocessError>)
        requires
            old(self).pos <= old(self).tokens@.len(),
        ensures
            final(self).pos <= final(self).tokens@.len(),
            final(self).tokens@ == old(self).tokens@,
            final(self).pos >= old(self).pos,
            ({
                let ts = old(self).tokens@;
                let p = old(self).pos as int;
                if p < ts.len() {
                    &&& final(self).pos == p + 1
                    &&& if ts[p].kind is LParen {
                        r matches Ok(t) && spec_same_token(t, ts[p])
                    } else {
                        r matches Err(e) && e.span == ts[p].span && e.message@ == "expected LParen, found "@ + spec_kind_debug(ts[p].kind)
                    }
                } else {
                    r matches Err(e) && e.span == name_span && e.message@ == "reached EOF"@
                }
            }),
    {
        let ghost ts = self.tokens@;
        let ghost p = self.pos as int;
        match self.advance() {
            Some(token) => {
                if kind_eq(&token.kind, &TokenKind::LParen) {
                    Ok(token)
                } else {
                    let mut msg = String::from_str("expected LParen, found ");
                    push_kind_debug(&mut msg, &token.kind);
                    proof {
                        lemma_kind_debug_eq(token.kind, ts[p].kind);
                    }
                    Err(PreprocessError { message: msg, span: token.span })
                }
            },
            None => Err(PreprocessError { message: String::from_str("reached EOF"), span: name_span }),
        }
    }

    /// The comma-separated arguments of a macro call, up to the matching ')'.
    fn parse_macro_args(&mut self, name_span: Span) -> (r: Result<Vec<Vec<Token>>, PreprocessError>)
        requires
            old(self).pos <= old(self).tokens@.len(),
        ensures
            final(self).pos <= final(self).tokens@.len(),
            final(self).tokens@ == old(self).tokens@,
            final(self).pos >= old(self).pos,
            match spec_macro_args(old(self).tokens@, old(self).pos as int) {
                Some((args, q)) => r matches Ok(v) && spec_args_match(v@, args) && final(self).pos == q,
                None => r is Err,
            },
    {
        let ghost ts = self.tokens@;
        let ghost p0 = self.pos as int;
        let open_token = self.expect_lparen(name_span)?;
        let mut args: Vec<Vec<Token>> = Vec::new();
        let mut current_arg: Vec<Token> = Vec::new();
        let mut paren_depth: usize = 0;
        if self.peek_is(&TokenKind::RParen) {
            self.advance();
            proof {
                assert(args@ =~= Seq::<Vec<Token>>::empty());
            }
            return Ok(args);
        }
        let ghost mut cur: Seq<Token> = Seq::empty();
        let ghost mut acc: Seq<Seq<Token>> = Seq::empty();
        loop
            invariant_except_break
                spec_macro_args(ts, p0) == spec_args_from(ts, self.pos as int, paren_depth as nat, cur, acc),
                tokens_match(current_arg@, cur),
                spec_args_match(args@, acc),
            invariant
                self.pos <= self.tokens@.len(),
                self.tokens@ == old(self).tokens@,
                self.pos >= old(self).pos,
                ts == old(self).tokens@,
                p0 == old(self).pos,
                p0 < self.pos,
                paren_depth <= self.pos - p0,
            ensures
                spec_macro_args(ts, p0) == Some((acc, self.pos as int)),
                spec_args_match(args@, acc),
                self.pos <= self.tokens@.len(),
                self.tokens@ == old(self).tokens@,
                self.pos >= old(self).pos,
            decreases self.tokens@.len() - self.pos,
        {
            let ghost k = self.pos as int;
            let ghost cur_k = cur;
            let ghost acc_k = acc;
            let ghost args_k = args@;
            let ghost arg_k = current_arg@;
            let token = match self.advance() {
                Some(t) => t,
                None => {
                    return Err(PreprocessError {
                        message: String::from_str("reached unterminated '(' in macro invocation"),
                        span: name_span,
                    });
                },
            };
            proof {
                assert(spec_same_token(token, ts[k]));
            }
            if kind_eq(&token.kind, &TokenKind::LParen) {
                if paren_depth < usize::MAX {
                    paren_depth = paren_depth + 1;
                }
                current_arg.push(token);
                proof {
                    cur = cur_k.push(ts[k]);
                    lemma_tokens_match_append(arg_k, cur_k, seq![token], seq![ts[k]]);
                    assert(current_arg@ =~= arg_k + seq![token]);
                    assert(cur_k + seq![ts[k]] =~= cur);
                }
            } else if kind_eq(&token.kind, &TokenKind::RParen) {
                if paren_depth == 0 {
                    args.push(current_arg);
                    proof {
                        acc = acc_k.push(cur_k);
                        assert(args@.drop_last() =~= args_k);
                        assert(args@.last()@ == arg_k);
                        assert forall|i: int| 0 <= i < args@.len() implies tokens_match((#[trigger] args@[i])@, acc[i]) by {
                            if i < args_k.len() {
                                assert(args@[i] == args_k[i]);
                                assert(tokens_match(args_k[i]@, acc_k[i]));
                            }
                        }
                    }
                    break;
                }
                paren_depth = paren_depth - 1;
                current_arg.push(token);
                proof {
                    cur = cur_k.push(ts[k]);
                    lemma_tokens_match_append(arg_k, cur_k, seq![token], seq![ts[k]]);
                    assert(current_arg@ =~= arg_k + seq![token]);
                    assert(cur_k + seq![ts[k]] =~= cur);
                }
            } else if kind_eq(&token.kind, &TokenKind::Comma) && paren_depth == 0 {
                args.push(current_arg);
                current_arg = Vec::new();
                proof {
                    acc = acc_k.push(cur_k);
                    cur = Seq::empty();
                    assert(args@.drop_last() =~= args_k);
                        assert(args@.last()@ == arg_k);
                    assert forall|i: int| 0 <= i < args@.len() implies tokens_match((#[trigger] args@[i])@, acc[i]) by {
                        if i < args_k.len() {
                            assert(args@[i] == args_k[i]);
                            assert(tokens_match(args_k[i]@, acc_k[i]));
                        }
                    }
                }
            } else if kind_eq(&token.kind, &TokenKind::Eof) {
                return Err(PreprocessError {
                    message: String::from_str("unterminated '(' (reached EOF), needs ')'"),
                    span: open_token.span,
                });
            } else {
                current_arg.push(token);
                proof {
                    cur = cur_k.push(ts[k]);
                    lemma_tokens_match_append(arg_k, cur_k, seq![token], seq![ts[k]]);
                    assert(current_arg@ =~= arg_k + seq![token]);
                    assert(cur_k + seq![ts[k]] =~= cur);
                }
            }
        }
        Ok(args)
    }
}

/// A cursor over the tokens of one input file; the last token is the end marker.
struct InputScanner {
    tokens: Vec<Token>,
    pos: usize,
    path: Option<String>,
    text: Option<Vec<char>>,
}

impl InputScanner {
    spec fn inv(&self) -> bool {
        &&& self.pos < self.tokens@.len()
        &&& self.tokens@.last().kind is Eof
    }

    /// Same tokens and path, position not moved back.
    spec fn moved_on(&self, old: &InputScanner) -> bool {
        &&& self.tokens@ == old.tokens@
        &&& self.path == old.path
        &&& self.text == old.text
        &&& self.pos >= old.pos
    }

    fn peek(&self) -> (t: &Token)
        requires
            self.inv(),
        ensures
            *t == self.tokens@[self.pos as int],
    {
        &self.tokens[self.pos]
    }

    fn peek_nth(&self, n: usize) -> (t: &Token)
        requires
            self.inv(),
        ensures
            n < self.tokens@.len() - self.pos ==> *t == self.tokens@[self.pos + n],
    {
        if n < self.tokens.len() - self.pos {
            &self.tokens[self.pos + n]
        } else {
            &self.tokens[self.tokens.len() - 1]
        }
    }

    fn peek_is(&self, kind: &TokenKind) -> (b: bool)
        requires
            self.inv(),
        ensures
            b == spec_kind_eq(self.tokens@[self.pos as int].kind, *kind),
    {
        kind_eq(&self.tokens[self.pos].kind, kind)
    }

    fn at_eof(&self) -> (b: bool)
        requires
            self.inv(),
        ensures
            b == (self.tokens@[self.pos as int].kind is Eof),
    {
        matches!(self.tokens[self.pos].kind, TokenKind::Eof)
    }

    /// Consumes the current token; the end marker stays current once reached.
    fn advance(&mut self) -> (t: Token)
        requires
            old(self).inv(),
        ensures
            final(self).inv(),
            final(self).moved_on(old(self)),
            spec_kind_eq(t.kind, old(self).tokens@[old(self).pos as int].kind),
            t.span == old(self).tokens@[old(self).pos as int].span,
            old(self).pos + 1 < old(self).tokens@.len() ==> final(self).pos == old(self).pos + 1,
            !(old(self).tokens@[old(self).pos as int].kind is Eof) ==> final(self).pos == old(self).pos + 1,
    {
        let token = clone_token(&self.tokens[self.pos]);
        if self.tokens.len() - self.pos > 1 {
            self.pos = self.pos + 1;
        }
        token
    }

    fn advance_if_newline(&mut self)
        requires
            old(self).inv(),
        ensures
            final(self).inv(),
            final(self).moved_on(old(self)),
            old(self).tokens@[old(self).pos as int].kind is Newline ==> final(self).pos == old(self).pos + 1,
            !(old(self).tokens@[old(self).pos as int].kind is Newline) ==> final(self).pos == old(self).pos,
    {
        if matches!(self.tokens[self.pos].kind, TokenKind::Newline) {
            self.advance();
        }
    }

    fn expect(&mut self, expected: &TokenKind) -> (r: Result<Token, PreprocessError>)
        requires
            old(self).inv(),
        ensures
            final(self).inv(),
            final(self).moved_on(old(self)),
            r is Ok <==> spec_kind_eq(old(self).tokens@[old(self).pos as int].kind, *expected),
            r matches Ok(t) ==> t.span == old(self).tokens@[old(self).pos as int].span,
            !(old(self).tokens@[old(self).pos as int].kind is Eof) ==> final(self).pos == old(self).pos + 1,
    {
        let token = self.advance();
        if kind_eq(&token.kind, expected) {
            Ok(token)
        } else {
            let mut msg = String::from_str("expected ");
            push_kind_debug(&mut msg, expected);
            push_str(&mut msg, ", found ");
            push_kind_debug(&mut msg, &token.kind);
            Err(PreprocessError { message: msg, span: token.span })
        }
    }

    fn expect_ident(&mut self) -> (r: Result<(String, Span), PreprocessError>)
        requires
            old(self).inv(),
        ensures
            final(self).inv(),
            final(self).moved_on(old(self)),
            !(old(self).tokens@[old(self).pos as int].kind is Eof) ==> final(self).pos == old(self).pos + 1,
            old(self).tokens@[old(self).pos as int].kind matches TokenKind::Ident(n) ==> (r matches Ok((s, _)) && s@ == n@),
            r matches Ok((s, _)) ==> old(self).tokens@[old(self).pos as int].kind matches TokenKind::Ident(n) && s@ == n@,
            r matches Ok((_, sp)) ==> sp == old(self).tokens@[old(self).pos as int].span,
    {
        let token = self.advance();
        match token.kind {
            TokenKind::Ident(name) => Ok((name, token.span)),
            kind => {
                let mut msg = String::from_str("expected identifier token, got '");
                push_kind_debug(&mut msg, &kind);
                push_str(&mut msg, "'");
                Err(PreprocessError { message: msg, span: token.span })
            },
        }
    }

    fn collect_until_newline(&mut self) -> (out: Vec<Token>)
        requires
            old(self).inv(),
        ensures
            final(self).inv(),
            final(self).moved_on(old(self)),
            ({
                let ts = old(self).tokens@;
                let q = spec_line_end(ts, old(self).pos as int);
                &&& old(self).pos <= q < ts.len()
                &&& tokens_match(out@, ts.subrange(old(self).pos as int, q))
                &&& final(self).pos == if ts[q].kind is Newline { q + 1 } else { q }
            }),
    {
        let ghost ts = self.tokens@;
        let ghost p0 = self.pos as int;
        let mut replacement: Vec<Token> = Vec::new();
        proof {
            assert(ts.subrange(p0, p0) =~= Seq::<Token>::empty());
        }
        loop
            invariant
                self.inv(),
                self.moved_on(old(self)),
                ts == self.tokens@,
                p0 == old(self).pos,
                p0 <= self.pos,
                spec_line_end(ts, self.pos as int) == spec_line_end(ts, p0),
                tokens_match(replacement@, ts.subrange(p0, self.pos as int)),
            ensures
                self.inv(),
                self.moved_on(old(self)),
                p0 <= self.pos,
                spec_line_end(ts, p0) == self.pos,
                tokens_match(replacement@, ts.subrange(p0, self.pos as int)),
            decreases self.tokens@.len() - self.pos,
        {
            if matches!(self.tokens[self.pos].kind, TokenKind::Newline | TokenKind::Eof) {
                break;
            }
            let ghost k = self.pos as int;
            let ghost before = replacement@;
            let t = self.advance();
            replacement.push(t);
            proof {
                assert(ts.subrange(p0, k + 1) =~= ts.subrange(p0, k).push(ts[k]));
                assert forall|j: int| 0 <= j < replacement@.len() implies spec_same_token(#[trigger] replacement@[j], ts.subrange(p0, k + 1)[j]) by {
                    if j < before.len() {
                        assert(spec_same_token(before[j], ts.subrange(p0, k)[j]));
                    }
                }
            }
        }
        let ghost q = self.pos as int;
        self.advance_if_newline();
        proof {
            if ts[q].kind is Newline {
                assert(q < ts.len() - 1);
            }
        }
        replacement
    }

    fn skip_until_newline(&mut self)
        requires
            old(self).inv(),
        ensures
            final(self).inv(),
            final(self).moved_on(old(self)),
            !(old(self).tokens@[old(self).pos as int].kind is Eof) ==> final(self).pos > old(self).pos,
            final(self).pos == spec_after_line(old(self).tokens@, old(self).pos as int),
    {
        let ghost ts = self.tokens@;
        let ghost p0 = self.pos as int;
        loop
            invariant
                self.inv(),
                self.moved_on(old(self)),
                ts == self.tokens@,
                p0 == old(self).pos,
                p0 <= self.pos,
                spec_line_end(ts, self.pos as int) == spec_line_end(ts, p0),
            ensures
                self.inv(),
                self.moved_on(old(self)),
                self.tokens@[self.pos as int].kind is Newline || self.tokens@[self.pos as int].kind is Eof,
                spec_line_end(ts, p0) == self.pos,
            decreases self.tokens@.len() - self.pos,
        {
            if matches!(self.tokens[self.pos].kind, TokenKind::Newline | TokenKind::Eof) {
                break;
            }
            self.advance();
        }
        let ghost q = self.pos as int;
        self.advance_if_newline();
        proof {
            if ts[q].kind is Newline {
                assert(q < ts.len() - 1);
            }
        }
    }

    fn collect_normal_tokens(&mut self) -> (out: Vec<Token>)
        requires
            old(self).inv(),
        ensures
            final(self).inv(),
            final(self).moved_on(old(self)),
            !(old(self).tokens@[old(self).pos as int].kind is Eof || old(self).tokens@[old(self).pos as int].kind is Newline
                || old(self).tokens@[old(self).pos as int].kind is Hash) ==> final(self).pos > old(self).pos,
            tokens_match(out@, old(self).tokens@.subrange(old(self).pos as int, final(self).pos as int)),
            forall|k: int| old(self).pos <= k < final(self).pos ==> !((#[trigger] old(self).tokens@[k]).kind is Newline)
                && !(old(self).tokens@[k].kind is Hash) && !(old(self).tokens@[k].kind is Eof),
            final(self).tokens@[final(self).pos as int].kind is Newline || final(self).tokens@[final(self).pos as int].kind is Eof
                || final(self).tokens@[final(self).pos as int].kind is Hash,
    {
        let ghost ts = self.tokens@;
        let ghost p0 = self.pos as int;
        let mut output: Vec<Token> = Vec::new();
        loop
            invariant
                self.inv(),
                self.moved_on(old(self)),
                ts == self.tokens@,
                p0 == old(self).pos,
                tokens_match(output@, ts.subrange(p0, self.pos as int)),
                forall|k: int| p0 <= k < self.pos ==> !((#[trigger] ts[k]).kind is Newline) && !(ts[k].kind is Hash) && !(ts[k].kind is Eof),
            ensures
                self.inv(),
                self.moved_on(old(self)),
                tokens_match(output@, ts.subrange(p0, self.pos as int)),
                forall|k: int| p0 <= k < self.pos ==> !((#[trigger] ts[k]).kind is Newline) && !(ts[k].kind is Hash) && !(ts[k].kind is Eof),
                self.tokens@[self.pos as int].kind is Newline || self.tokens@[self.pos as int].kind is Eof
                    || self.tokens@[self.pos as int].kind is Hash,
            decreases self.tokens@.len() - self.pos,
        {
            if matches!(self.tokens[self.pos].kind, TokenKind::Newline | TokenKind::Hash | TokenKind::Eof) {
                break;
            }
            let ghost k = self.pos as int;
            let ghost before = output@;
            let t = self.advance();
            output.push(t);
            proof {
                assert(ts.subrange(p0, k + 1) =~= ts.subrange(p0, k).push(ts[k]));
                assert forall|j: int| 0 <= j < output@.len() implies spec_same_token(#[trigger] output@[j], ts.subrange(p0, k + 1)[j]) by {
                    if j < before.len() {
                        assert(spec_same_token(before[j], ts.subrange(p0, k)[j]));
                    }
                }
            }
        }
        output
    }
}

/// The directory part of a path: everything before its last '/', or "/" for a
/// file in the root directory, or nothing for a bare file name.
pub open spec fn spec_parent_dir(path: Seq<char>) -> Seq<char> {
    if exists|i: int| 0 <= i < path.len() && path[i] == '/' {
        let i = choose|i: int| 0 <= i < path.len() && path[i] == '/' && forall|j: int| i < j < path.len() ==> path[j] != '/';
        if i == 0 { seq!['/'] } else { path.take(i) }
    } else {
        Seq::empty()
    }
}

/// A file name joined onto a directory: absolute names and an empty directory
/// leave the name as it is; otherwise a '/' separates the two unless the directory ends in one.
pub open spec fn spec_join(dir: Seq<char>, name: Seq<char>) -> Seq<char> {
    if dir.len() == 0 || (name.len() > 0 && name[0] == '/') {
        name
    } else if dir.last() == '/' {
        dir + name
    } else {
        dir + seq!['/'] + name
    }
}

fn parent_dir(path: &Vec<char>) -> (d: Vec<char>)
    ensures
        d@ == spec_parent_dir(path@),
{
    let mut i: usize = path.len();
    while i > 0
        invariant
            i <= path@.len(),
            forall|j: int| i <= j < path@.len() ==> path@[j] != '/',
        decreases i,
    {
        if path[i - 1] == '/' {
            let k = i - 1;
            proof {
                let c = choose|c: int| 0 <= c < path@.len() && path@[c] == '/' && forall|j: int| c < j < path@.len() ==> path@[j] != '/';
                assert(c == k as int) by {
                    if c < k as int {
                        assert(path@[k as int] == '/');
                    }
                }
            }
            if k == 0 {
                let mut d: Vec<char> = Vec::new();
                d.push('/');
                proof {
                    assert(d@ =~= seq!['/']);
                }
                return d;
            }
            let mut d: Vec<char> = Vec::new();
            let mut j: usize = 0;
            while j < k
                invariant
                    j <= k,
                    k < path@.len(),
                    d@ == path@.take(j as int),
                decreases k - j,
            {
                d.push(path[j]);
                j = j + 1;
                proof {
                    assert(d@ =~= path@.take(j as int));
                }
            }
            return d;
        }
        i = i - 1;
    }
    Vec::new()
}

fn join_path(dir: &Vec<char>, name: &Vec<char>) -> (p: Vec<char>)
    ensures
        p@ == spec_join(dir@, name@),
{
    let mut out: Vec<char> = Vec::new();
    if dir.len() == 0 || (name.len() > 0 && name[0] == '/') {
        let mut j: usize = 0;
        while j < name.len()
            invariant
                j <= name@.len(),
                out@ == name@.take(j as int),
            decreases name.len() - j,
        {
            out.push(name[j]);
            j = j + 1;
            proof {
                assert(out@ =~= name@.take(j as int));
            }
        }
        proof {
            assert(name@.take(j as int) =~= name@);
        }
        return out;
    }
    let mut j: usize = 0;
    while j < dir.len()
        invariant
            j <= dir@.len(),
            out@ == dir@.take(j as int),
        decreases dir.len() - j,
    {
        out.push(dir[j]);
        j = j + 1;
        proof {
            assert(out@ =~= dir@.take(j as int));
        }
    }
    proof {
        assert(dir@.take(j as int) =~= dir@);
    }
    let ghost prefix = if dir@.last() == '/' { dir@ } else { dir@ + seq!['/'] };
    if dir[dir.len() - 1] != '/' {
        out.push('/');
    }
    proof {
        assert(out@ =~= prefix);
    }
    let mut k: usize = 0;
    while k < name.len()
        invariant
            k <= name@.len(),
            out@ == prefix + name@.take(k as int),
        decreases name.len() - k,
    {
        out.push(name[k]);
        k = k + 1;
        proof {
            assert(out@ =~= prefix + name@.take(k as int));
        }
    }
    proof {
        assert(name@.take(k as int) =~= name@);
    }
    out
}


enum IncludeKind {
    Quoted,
    Angle,
}

struct IncludeName {
    kind: IncludeKind,
    name: Vec<char>,
    span: Span,
}

enum ProcessError {
    Local(PreprocessError),
    File(PreprocessFileError),
    NeedFile(String),
}

/// The text a token contributes to an angle-bracket include name: an
/// identifier's name, a number's decimal digits, '.' or '/'.
pub open spec fn spec_include_piece(k: TokenKind) -> Option<Seq<char>> {
    match k {
        TokenKind::Ident(name) => Some(name@),
        TokenKind::Dot => Some(seq!['.']),
        TokenKind::IntLiteral { value, .. } => Some(spec_decimal(value as nat)),
        TokenKind::Slash => Some(seq!['/']),
        _ => None,
    }
}

/// The include name spelled by the tokens from position `p` up to the next
/// '>', if every token before it contributes a piece.
pub open spec fn spec_angle_name(ts: Seq<Token>, p: int) -> Option<Seq<char>>
    decreases ts.len() - p,
{
    if p < 0 || p >= ts.len() {
        None
    } else if ts[p].kind is Greater {
        Some(Seq::empty())
    } else {
        match spec_include_piece(ts[p].kind) {
            Some(piece) => match spec_angle_name(ts, p + 1) {
                Some(rest) => Some(piece + rest),
                None => None,
            },
            None => None,
        }
    }
}

/// The characters of ASCII bytes; none if a byte is not ASCII.
pub open spec fn spec_ascii_chars(bytes: Seq<u8>) -> Option<Seq<char>> {
    if forall|i: int| 0 <= i < bytes.len() ==> bytes[i] < 128 {
        Some(Seq::new(bytes.len(), |i: int| bytes[i] as char))
    } else {
        None
    }
}

impl InputScanner {
    /// The name of an included file: a string literal (quoted) or the tokens between '<' and '>'.
    fn expect_include_name(&mut self) -> (r: Result<IncludeName, PreprocessError>)
        requires
            old(self).inv(),
        ensures
            final(self).inv(),
            final(self).moved_on(old(self)),
            r matches Ok(n) ==> (n.kind is Quoted ==> (old(self).tokens@[old(self).pos as int].kind matches TokenKind::StringLiteral(bytes)
                && spec_ascii_chars(bytes@) == Some(n.name@))),
            r matches Ok(n) ==> (n.kind is Angle ==> old(self).tokens@[old(self).pos as int].kind is Less
                && n.span == old(self).tokens@[old(self).pos as int].span
                && final(self).pos > 0 && final(self).tokens@[final(self).pos - 1].kind is Greater
                && (spec_angle_name(old(self).tokens@, old(self).pos + 1) matches Some(pieces) && pieces.len() > 0
                && n.name@ == match old(self).text {
                    Some(t) => spec_text_between(
                        t@,
                        old(self).tokens@[old(self).pos as int].span.end as int,
                        final(self).tokens@[final(self).pos - 1].span.start as int,
                    ),
                    None => pieces,
                })),
            r matches Ok(n) ==> (n.kind is Quoted ==> n.span == old(self).tokens@[old(self).pos as int].span),
            old(self).tokens@[old(self).pos as int].kind is Less && spec_angle_name(old(self).tokens@, old(self).pos + 1)
                == Some(Seq::<char>::empty()) ==> (r matches Err(e) && e.message@ == "empty angle include path"@
                && e.span == old(self).tokens@[old(self).pos as int].span),
            r is Err ==> !(old(self).tokens@[old(self).pos as int].kind matches TokenKind::StringLiteral(bytes)
                && spec_ascii_chars(bytes@) is Some),
            r is Err ==> !(old(self).tokens@[old(self).pos as int].kind is Less && (spec_angle_name(
                old(self).tokens@,
                old(self).pos + 1,
            ) matches Some(name) && name.len() > 0)),
    {
        let ghost first = self.tokens@[self.pos as int];
        let token = self.advance();
        match token.kind {
            TokenKind::StringLiteral(bytes) => {
                let mut name: Vec<char> = Vec::new();
                let mut i: usize = 0;
                while i < bytes.len()
                    invariant
                        self.inv(),
                        self.moved_on(old(self)),
                        first == old(self).tokens@[old(self).pos as int],
                        first.kind matches TokenKind::StringLiteral(b) && b@ == bytes@,
                        i <= bytes@.len(),
                        name@ == Seq::new(i as nat, |k: int| bytes@[k] as char),
                        forall|k: int| 0 <= k < i ==> bytes@[k] < 128,
                    decreases bytes.len() - i,
                {
                    if bytes[i] >= 128 {
                        return Err(PreprocessError {
                            message: String::from_str("failed to convert bytes to string"),
                            span: token.span,
                        });
                    }
                    name.push(bytes[i] as char);
                    i = i + 1;
                    proof {
                        assert(name@ =~= Seq::new(i as nat, |k: int| bytes@[k] as char));
                    }
                }
                Ok(IncludeName { kind: IncludeKind::Quoted, name, span: token.span })
            },
            TokenKind::Less => {
                let span = token.span;
                let ghost start = old(self).pos + 1;
                let mut include_path: Vec<char> = Vec::new();
                let mut close: usize = 0;
                proof {
                    assert(self.pos == start);
                    assert(include_path@ + Seq::<char>::empty() =~= Seq::<char>::empty());
                }
                loop
                    invariant_except_break
                        spec_angle_name(self.tokens@, start) == match spec_angle_name(self.tokens@, self.pos as int) {
                            Some(rest) => Some(include_path@ + rest),
                            None => None,
                        },
                    invariant
                        self.inv(),
                        self.moved_on(old(self)),
                        first == old(self).tokens@[old(self).pos as int],
                        first.kind is Less,
                        start == old(self).pos + 1,
                    ensures
                        self.inv(),
                        self.moved_on(old(self)),
                        spec_angle_name(self.tokens@, start) == Some(include_path@),
                        self.pos > 0 && self.tokens@[self.pos - 1].kind is Greater,
                        close == self.tokens@[self.pos - 1].span.start,
                    decreases self.tokens@.len() - self.pos,
                {
                    let next = self.peek();
                    let ghost before = include_path@;
                    match &next.kind {
                        TokenKind::Ident(name) => {
                            let cs = crate::source::chars_of(name.as_str());
                            let mut k: usize = 0;
                            while k < cs.len()
                                invariant
                                    self.inv(),
                                    self.moved_on(old(self)),
                                    k <= cs@.len(),
                                    include_path@ == before + cs@.take(k as int),
                                decreases cs.len() - k,
                            {
                                include_path.push(cs[k]);
                                k = k + 1;
                                proof {
                                    assert(include_path@ =~= before + cs@.take(k as int));
                                }
                            }
                            proof {
                                assert(cs@.take(k as int) =~= cs@);
                            }
                            self.advance();
                        },
                        TokenKind::Dot => {
                            include_path.push('.');
                            self.advance();
                        },
                        TokenKind::IntLiteral { value, .. } => {
                            let digits = crate::text::u64_to_string(*value);
                            let cs = crate::source::chars_of(digits.as_str());
                            let mut k: usize = 0;
                            while k < cs.len()
                                invariant
                                    self.inv(),
                                    self.moved_on(old(self)),
                                    k <= cs@.len(),
                                    include_path@ == before + cs@.take(k as int),
                                decreases cs.len() - k,
                            {
                                include_path.push(cs[k]);
                                k = k + 1;
                                proof {
                                    assert(include_path@ =~= before + cs@.take(k as int));
                                }
                            }
                            proof {
                                assert(cs@.take(k as int) =~= cs@);
                            }
                            self.advance();
                        },
                        TokenKind::Slash => {
                            include_path.push('/');
                            self.advance();
                        },
                        TokenKind::Greater => {
                            proof {
                                assert(include_path@ + Seq::<char>::empty() =~= include_path@);
                                assert(spec_angle_name(self.tokens@, start) == Some(include_path@));
                            }
                            close = next.span.start;
                            self.advance();
                            break;
                        },
                        kind => {
                            let mut msg = String::from_str("unexpected '");
                            push_kind_debug(&mut msg, kind);
                            push_str(&mut msg, "' in include path");
                            return Err(PreprocessError { message: msg, span: next.span });
                        },
                    }
                    proof {
                        let piece = spec_include_piece(self.tokens@[self.pos - 1].kind).unwrap();
                        assert(include_path@ =~= before + piece);
                        match spec_angle_name(self.tokens@, self.pos as int) {
                            Some(rest) => {
                                assert(include_path@ + rest =~= before + (piece + rest));
                            },
                            None => {},
                        }
                    }
                }
                if include_path.len() == 0 {
                    return Err(PreprocessError { message: String::from_str("empty angle include path"), span });
                }
                let name = match &self.text {
                    Some(t) => text_between(t, span.end, close),
                    None => include_path,
                };
                Ok(IncludeName { kind: IncludeKind::Angle, name, span })
            },
            _ => Err(PreprocessError { message: String::from_str("expected include path"), span: token.span }),
        }
    }

    fn resolve_quoted_include_path(&self, file_name: &Vec<char>, span: Span) -> (r: Result<Vec<char>, PreprocessError>)
        ensures
            self.path is None ==> (r matches Err(e) && e.span == span
                && e.message@ == "cannot resolve quoted include without source file path"@),
            self.path matches Some(path) ==> (r matches Ok(p) && p@ == spec_join(spec_parent_dir(path@), file_name@)),
    {
        match &self.path {
            None => Err(PreprocessError {
                message: String::from_str("cannot resolve quoted include without source file path"),
                span,
            }),
            Some(path) => {
                let cs = crate::source::chars_of(path.as_str());
                let dir = parent_dir(&cs);
                Ok(join_path(&dir, file_name))
            },
        }
    }
}

/// The preprocessor state: defined macros, open conditionals, the files read
/// so far, and where angle includes are looked up.
struct Preprocessor {
    macros: MacroTable,
    conditionals: Vec<ConditionalFrame>,
    source_map: SourceMap,
    include_dirs: Vec<String>,
}

/// The largest depth of nested `#include`s followed.
pub const MAX_INCLUDE_DEPTH: usize = 200;

impl Preprocessor {
    spec fn inv(&self) -> bool {
        &&& self.macros.wf()
        &&& frames_consistent(self.conditionals@)
        &&& self.source_map.wf()
    }

    fn new() -> (p: Self)
        ensures
            p.inv(),
            p.conditionals@.len() == 0,
            p.macros.names().len() == 0,
            p.macros.reps().len() == 0,
            p.source_map.files().len() == 0,
            p.include_dirs@.len() == 1,
            p.include_dirs@[0]@ == "tests/programs/include"@,
    {
        let mut include_dirs: Vec<String> = Vec::new();
        include_dirs.push(String::from_str("tests/programs/include"));
        Preprocessor { macros: MacroTable::new(), conditionals: Vec::new(), source_map: SourceMap::new(), include_dirs }
    }

    fn is_active(&self) -> (b: bool)
        ensures
            b == frames_active(self.conditionals@),
    {
        if self.conditionals.len() == 0 {
            true
        } else {
            self.conditionals[self.conditionals.len() - 1].current_active
        }
    }

    fn parse_macro_params(scanner: &mut InputScanner) -> (r: Result<Vec<String>, PreprocessError>)
        requires
            old(scanner).inv(),
        ensures
            final(scanner).inv(),
            final(scanner).moved_on(old(scanner)),
            match spec_macro_params(old(scanner).tokens@, old(scanner).pos as int) {
                Some((ps, q)) => r matches Ok(v) && v@.map_values(|x: String| x@) == ps && final(scanner).pos == q,
                None => r is Err,
            },
    {
        let ghost ts = scanner.tokens@;
        let ghost p0 = scanner.pos as int;
        scanner.expect(&TokenKind::LParen)?;
        let mut params: Vec<String> = Vec::new();
        if scanner.peek_is(&TokenKind::RParen) {
            scanner.advance();
            proof {
                assert(params@.map_values(|x: String| x@) =~= Seq::<Seq<char>>::empty());
            }
            return Ok(params);
        }
        proof {
            assert(params@.map_values(|x: String| x@) =~= Seq::<Seq<char>>::empty());
        }
        loop
            invariant
                scanner.inv(),
                scanner.moved_on(old(scanner)),
                ts == old(scanner).tokens@,
                p0 == old(scanner).pos,
                spec_macro_params(ts, p0) == spec_params_from(ts, scanner.pos as int, params@.map_values(|x: String| x@)),
            decreases scanner.tokens@.len() - scanner.pos,
        {
            let ghost k = scanner.pos as int;
            let ghost before = params@;
            if scanner.at_eof() {
                let (param, _) = scanner.expect_ident()?;
                params.push(param);
            } else {
                let (param, _) = scanner.expect_ident()?;
                params.push(param);
            }
            proof {
                assert(params@.drop_last() =~= before);
                assert(params@.map_values(|x: String| x@) =~= before.map_values(|x: String| x@).push(ts[k].kind->Ident_0@));
            }
            if scanner.at_eof() {
                scanner.expect(&TokenKind::RParen)?;
                return Ok(params);
            }
            if scanner.peek_is(&TokenKind::Comma) {
                scanner.advance();
                if scanner.peek_is(&TokenKind::RParen) {
                    let token = scanner.peek();
                    return Err(PreprocessError { message: String::from_str("trailing comma"), span: token.span });
                }
                continue;
            }
            scanner.expect(&TokenKind::RParen)?;
            return Ok(params);
        }
    }

    fn parse_define(&mut self, scanner: &mut InputScanner) -> (r: Result<(), PreprocessError>)
        requires
            old(self).inv(),
            old(scanner).inv(),
            old(scanner).tokens@[old(scanner).pos as int].kind is Hash,
        ensures
            final(self).inv(),
            final(self).source_map == old(self).source_map,
            final(self).conditionals@ == old(self).conditionals@,
            final(scanner).inv(),
            final(scanner).moved_on(old(scanner)),
            final(scanner).pos > old(scanner).pos,
            frames_active(old(self).conditionals@) && spec_object_define_at(old(scanner).tokens@, old(scanner).pos as int) ==> ({
                let ts = old(scanner).tokens@;
                let p = old(scanner).pos as int;
                let n = ts[p + 2].kind->Ident_0@;
                let q = spec_line_end(ts, p + 3);
                &&& r is Ok
                &&& final(scanner).pos == spec_after_line(ts, p + 3)
                &&& final(self).macros.names() == spec_names_after(old(self).macros.names(), n)
                &&& spec_reps_match(
                    final(self).macros.reps(),
                    spec_reps_after(old(self).macros.names(), old(self).macros.reps(), n, Some(ts.subrange(p + 3, q))),
                )
                &&& old(self).macros.spec_objects_only() ==> final(self).macros.spec_objects_only()
            }),
            !frames_active(old(self).conditionals@) ==> r is Ok && final(self).macros == old(self).macros
                && final(scanner).pos == spec_after_line(old(scanner).tokens@, old(scanner).pos + 1),
    {
        let ghost ts = scanner.tokens@;
        let ghost p = scanner.pos as int;
        if !self.is_active() {
            scanner.skip_until_newline();
            proof {
                assert(spec_line_end(ts, p) == spec_line_end(ts, p + 1));
            }
            return Ok(());
        }
        scanner.expect(&TokenKind::Hash)?;
        scanner.expect_ident()?;
        let (macro_name, _) = scanner.expect_ident()?;
        if scanner.peek_is(&TokenKind::LParen) {
            let params = Self::parse_macro_params(scanner)?;
            let replacement = scanner.collect_until_newline();
            self.macros.insert(macro_name, MacroDef::FunctionLike { params, replacement });
        } else {
            let replacement = scanner.collect_until_newline();
            let ghost rv = replacement@;
            let ghost names0 = self.macros.names();
            let ghost reps0 = self.macros.reps();
            self.macros.insert(macro_name, MacroDef::ObjectLike(replacement));
            proof {
                if spec_object_define_at(ts, p) {
                    assert(spec_rep_of(MacroDef::ObjectLike(replacement)) == Some(rv));
                    lemma_reps_after_match(names0, reps0, macro_name@, rv, ts.subrange(p + 3, spec_line_end(ts, p + 3)));
                }
            }
        }
        Ok(())
    }

    fn parse_ifdef(&mut self, scanner: &mut InputScanner, inverted: bool) -> (r: Result<(), PreprocessError>)
        requires
            old(self).inv(),
            old(scanner).inv(),
            old(scanner).tokens@[old(scanner).pos as int].kind is Hash,
        ensures
            final(self).inv(),
            final(self).source_map == old(self).source_map,
            final(self).macros == old(self).macros,
            final(scanner).inv(),
            final(scanner).moved_on(old(scanner)),
            final(scanner).pos > old(scanner).pos,
            r is Ok ==> final(self).conditionals@.len() == old(self).conditionals@.len() + 1
                && final(self).conditionals@.drop_last() == old(self).conditionals@
                && final(self).conditionals@.last().parent_active == frames_active(old(self).conditionals@),
            r is Err ==> final(self).conditionals@ == old(self).conditionals@,
            ({
                let ts = old(scanner).tokens@;
                let p = old(scanner).pos as int;
                p + 2 < ts.len() && ts[p + 1].kind is Ident && ts[p + 2].kind is Ident ==> {
                    let defined = spec_name_index(old(self).macros.names(), ts[p + 2].kind->Ident_0@) is Some;
                    &&& r is Ok
                    &&& final(self).conditionals@ == old(self).conditionals@.push(
                        spec_ifdef_frame(frames_active(old(self).conditionals@), if inverted { !defined } else { defined }),
                    )
                    &&& final(scanner).pos == spec_after_line(ts, p + 3)
                }
            }),
    {
        let ghost ts = scanner.tokens@;
        let ghost p = scanner.pos as int;
        scanner.expect(&TokenKind::Hash)?;
        scanner.expect_ident()?;
        let (macro_name, _) = scanner.expect_ident()?;
        scanner.skip_until_newline();
        let defined = self.macros.contains(&macro_name);
        let condition_met = if inverted { !defined } else { defined };
        let parent_active = self.is_active();
        proof {
            lemma_push_frame_consistent(self.conditionals@, condition_met);
        }
        self.conditionals.push(ConditionalFrame {
            parent_active,
            current_active: parent_active && condition_met,
            branch_taken: condition_met,
            saw_else: false,
        });
        proof {
            assert(self.conditionals@.drop_last() =~= old(self).conditionals@);
            assert((spec_name_index(self.macros.names(), macro_name@) is Some) == (self.macros.spec_get(macro_name@) is Some));
        }
        Ok(())
    }

    fn parse_else(&mut self, scanner: &mut InputScanner) -> (r: Result<(), PreprocessError>)
        requires
            old(self).inv(),
            old(scanner).inv(),
            old(scanner).tokens@[old(scanner).pos as int].kind is Hash,
        ensures
            final(self).inv(),
            final(self).source_map == old(self).source_map,
            final(self).macros == old(self).macros,
            final(scanner).inv(),
            final(scanner).moved_on(old(scanner)),
            final(scanner).pos > old(scanner).pos,
            r is Ok ==> old(self).conditionals@.len() > 0 && !old(self).conditionals@.last().saw_else
                && final(self).conditionals@ == old(self).conditionals@.update(
                    old(self).conditionals@.len() - 1, spec_else_frame(old(self).conditionals@.last())),
            r is Err ==> final(self).conditionals@ == old(self).conditionals@,
            old(self).conditionals@.len() == 0 ==> r is Err,
            ({
                let ts = old(scanner).tokens@;
                let p = old(scanner).pos as int;
                p + 1 < ts.len() && ts[p + 1].kind is KwElse && old(self).conditionals@.len() > 0
                    && !old(self).conditionals@.last().saw_else ==> r is Ok && final(scanner).pos == spec_after_line(ts, p + 2)
            }),
            ({
                let ts = old(scanner).tokens@;
                let p = old(scanner).pos as int;
                p + 1 < ts.len() && ts[p + 1].kind is KwElse && old(self).conditionals@.len() == 0 ==> (r matches Err(e) && e.span
                    == ts[p + 1].span && e.message@ == "cannot use #else without opening conditional macro"@)
            }),
            ({
                let ts = old(scanner).tokens@;
                let p = old(scanner).pos as int;
                p + 1 < ts.len() && ts[p + 1].kind is KwElse && old(self).conditionals@.len() > 0
                    && old(self).conditionals@.last().saw_else ==> (r matches Err(e) && e.span == ts[p + 1].span && e.message@
                    == "cannot use duplicate #else"@)
            }),
    {
        scanner.expect(&TokenKind::Hash)?;
        let else_token = scanner.expect(&TokenKind::KwElse)?;
        if self.conditionals.len() == 0 {
            return Err(PreprocessError {
                message: String::from_str("cannot use #else without opening conditional macro"),
                span: else_token.span,
            });
        }
        let last = self.conditionals.len() - 1;
        let frame = self.conditionals[last];
        if frame.saw_else {
            return Err(PreprocessError { message: String::from_str("cannot use duplicate #else"), span: else_token.span });
        }
        proof {
            lemma_else_frame_consistent(self.conditionals@);
        }
        self.conditionals.set(last, ConditionalFrame {
            parent_active: frame.parent_active,
            current_active: frame.parent_active && !frame.branch_taken,
            branch_taken: true,
            saw_else: true,
        });
        scanner.skip_until_newline();
        Ok(())
    }

    fn parse_endif(&mut self, scanner: &mut InputScanner) -> (r: Result<(), PreprocessError>)
        requires
            old(self).inv(),
            old(scanner).inv(),
            old(scanner).tokens@[old(scanner).pos as int].kind is Hash,
        ensures
            final(self).inv(),
            final(self).source_map == old(self).source_map,
            final(self).macros == old(self).macros,
            final(scanner).inv(),
            final(scanner).moved_on(old(scanner)),
            final(scanner).pos > old(scanner).pos,
            r is Ok ==> old(self).conditionals@.len() > 0 && final(self).conditionals@ == old(self).conditionals@.drop_last(),
            r is Err ==> final(self).conditionals@ == old(self).conditionals@,
            ({
                let ts = old(scanner).tokens@;
                let p = old(scanner).pos as int;
                p + 1 < ts.len() && ts[p + 1].kind is Ident && old(self).conditionals@.len() > 0 ==> r is Ok
                    && final(scanner).pos == spec_after_line(ts, p + 2)
            }),
            ({
                let ts = old(scanner).tokens@;
                let p = old(scanner).pos as int;
                p + 1 < ts.len() && ts[p + 1].kind is Ident && old(self).conditionals@.len() == 0 ==> (r matches Err(e) && e.span
                    == ts[p + 1].span && e.message@ == "cannot use #endif without opening conditional macro"@)
            }),
    {
        scanner.expect(&TokenKind::Hash)?;
        let (_, span) = scanner.expect_ident()?;
        if self.conditionals.len() == 0 {
            return Err(PreprocessError {
                message: String::from_str("cannot use #endif without opening conditional macro"),
                span,
            });
        }
        proof {
            lemma_pop_frame_consistent(self.conditionals@);
        }
        self.conditionals.pop();
        scanner.skip_until_newline();
        Ok(())
    }

    fn resolve_angle_include_path(&self, file_name: &Vec<char>, span: Span, files: &FileStore) -> (r: Result<
        Vec<char>,
        ProcessError,
    >)
        requires
            files.wf(),
        ensures
            match spec_angle_search(self.include_dirs@.map_values(|d: String| d@), 0, file_name@, files.entries()) {
                Ok(c) => r matches Ok(p) && p@ == c,
                Err(Some(c)) => r matches Err(ProcessError::NeedFile(k)) && k@ == c,
                Err(None) => r matches Err(ProcessError::Local(e)) && e.span == span && e.message@
                    == "cannot resolve angle include '<"@ + file_name@ + ">'"@,
            },
    {
        let ghost dirs = self.include_dirs@.map_values(|d: String| d@);
        let mut i: usize = 0;
        while i < self.include_dirs.len()
            invariant
                files.wf(),
                dirs == self.include_dirs@.map_values(|d: String| d@),
                spec_angle_search(dirs, 0, file_name@, files.entries()) == spec_angle_search(dirs, i as int, file_name@, files.entries()),
            decreases self.include_dirs.len() - i,
        {
            let dir = crate::source::chars_of(self.include_dirs[i].as_str());
            let candidate = join_path(&dir, file_name);
            let key = string_from_chars(&candidate);
            match files.lookup(&key) {
                Some(Ok(_)) => {
                    return Ok(candidate);
                },
                Some(Err(_)) => {},
                None => {
                    return Err(ProcessError::NeedFile(key));
                },
            }
            i = i + 1;
        }
        let mut msg = String::from_str("cannot resolve angle include '<");
        let name = string_from_chars(file_name);
        push_str(&mut msg, name.as_str());
        push_str(&mut msg, ">'");
        proof {
            assert(msg@ =~= "cannot resolve angle include '<"@ + file_name@ + ">'"@);
        }
        Err(ProcessError::Local(PreprocessError { message: msg, span }))
    }

    fn expand_macro_use(&self, scanner: &mut TokenScanner, index: usize, name_token: &Token) -> (r: Result<
        Vec<Token>,
        PreprocessError,
    >)
        requires
            self.inv(),
            index < self.macros.names().len(),
            old(scanner).pos <= old(scanner).tokens@.len(),
        ensures
            final(scanner).pos <= final(scanner).tokens@.len(),
            final(scanner).tokens@ == old(scanner).tokens@,
            final(scanner).pos >= old(scanner).pos,
            self.macros.defs()[index as int] matches MacroDef::ObjectLike(rep) ==> (r matches Ok(out) && tokens_match(out@, rep@)
                && final(scanner).pos == old(scanner).pos),
    {
        match &self.macros.entries[index].1 {
            MacroDef::ObjectLike(replacement) => {
                let mut out: Vec<Token> = Vec::new();
                extend_cloned(&mut out, replacement);
                proof {
                    assert(out@.skip(0) =~= out@);
                    assert(self.macros.defs()[index as int] == self.macros.entries@[index as int].1);
                }
                Ok(out)
            },
            MacroDef::FunctionLike { params, replacement } => {
                if !scanner.peek_is(&TokenKind::LParen) {
                    let mut out: Vec<Token> = Vec::new();
                    out.push(clone_token(name_token));
                    return Ok(out);
                }
                let args = scanner.parse_macro_args(name_token.span)?;
                expand_function_like(params, replacement, &args, name_token.span)
            },
        }
    }

    /// Expands macro uses in `tokens`, rescanning each replacement with the
    /// macro being expanded (and those around it) marked active, so that it is not expanded again.
    fn expand_tokens(&self, tokens: Vec<Token>, active: &mut Vec<bool>) -> (r: Result<Vec<Token>, PreprocessError>)
        requires
            self.inv(),
            old(active)@.len() == self.macros.names().len(),
        ensures
            final(active)@ == old(active)@,
            (forall|i: int| 0 <= i < tokens@.len() ==> ((#[trigger] tokens@[i]).kind matches TokenKind::Ident(n)
                ==> self.macros.spec_get(n@) is None)) ==> (r matches Ok(out) && tokens_match(out@, tokens@)),
            self.macros.spec_objects_only() ==> (r matches Ok(out) && tokens_match(
                out@,
                spec_expand(self.macros.names(), self.macros.reps(), old(active)@, tokens@),
            )),
        decreases spec_count_false(old(active)@),
    {
        let ghost t0 = tokens@;
        let ghost a0 = active@;
        let ghost objects = self.macros.spec_objects_only();
        let ghost plain = forall|i: int| 0 <= i < tokens@.len() ==> ((#[trigger] tokens@[i]).kind matches TokenKind::Ident(n)
            ==> self.macros.spec_get(n@) is None);
        let mut scanner = TokenScanner { tokens, pos: 0 };
        let mut output: Vec<Token> = Vec::new();
        while !scanner.is_done()
            invariant
                self.inv(),
                active@ == old(active)@,
                active@.len() == self.macros.names().len(),
                scanner.pos <= scanner.tokens@.len(),
                scanner.tokens@ == t0,
                t0 == tokens@,
                plain == (forall|i: int| 0 <= i < t0.len() ==> ((#[trigger] t0[i]).kind matches TokenKind::Ident(n)
                    ==> self.macros.spec_get(n@) is None)),
                plain ==> tokens_match(output@, t0.take(scanner.pos as int)),
                a0 == old(active)@,
                objects == self.macros.spec_objects_only(),
                objects ==> tokens_match(output@, spec_expand(self.macros.names(), self.macros.reps(), a0, t0.take(scanner.pos as int))),
            ensures
                active@ == old(active)@,
                scanner.pos == t0.len(),
                plain ==> tokens_match(output@, t0.take(scanner.pos as int)),
                objects ==> tokens_match(output@, spec_expand(self.macros.names(), self.macros.reps(), a0, t0.take(scanner.pos as int))),
            decreases scanner.tokens@.len() - scanner.pos,
        {
            let ghost k = scanner.pos as int;
            let ghost before = output@;
            let token = match scanner.advance() {
                Some(t) => t,
                None => {
                    break;
                },
            };
            let found = match &token.kind {
                TokenKind::Ident(name) => self.macros.get(name),
                _ => None,
            };
            proof {
                if plain {
                    assert(found is None) by {
                        if let TokenKind::Ident(n) = t0[k].kind {
                            assert(t0[k].kind matches TokenKind::Ident(n) ==> self.macros.spec_get(n@) is None);
                        }
                    }
                }
            }
            let ghost m = self.macros;
            let ghost ns = m.names();
            let ghost rs_m = m.reps();
            let ghost before_spec = spec_expand(ns, rs_m, a0, t0.take(k));
            let ghost piece = match spec_expansion_of(ns, rs_m, a0, t0[k]) {
                Some((i, rep)) => spec_expand(ns, rs_m, a0.update(i, true), rep),
                None => seq![t0[k]],
            };
            proof {
                assert(spec_same_token(token, t0[k]));
                match found {
                    Some((index, _)) => {
                        if let TokenKind::Ident(n) = t0[k].kind {
                            assert(m.spec_index(n@) == Some(index as int));
                        }
                    },
                    None => {
                        if let TokenKind::Ident(n) = t0[k].kind {
                            assert(m.spec_index(n@) is None);
                        }
                        assert(spec_expansion_of(ns, rs_m, a0, t0[k]) is None);
                    },
                }
            }
            match found {
                Some((index, _)) => {
                    if active[index] {
                        output.push(token);
                        proof {
                            assert(spec_expansion_of(ns, rs_m, a0, t0[k]) is None);
                            assert(output@ =~= before + seq![token]);
                            if objects {
                                lemma_tokens_match_append(before, before_spec, seq![token], seq![t0[k]]);
                            }
                        }
                    } else {
                        active.set(index, true);
                        proof {
                            lemma_count_false_set(old(active)@, index as int);
                        }
                        let replacement = match self.expand_macro_use(&mut scanner, index, &token) {
                            Ok(rep) => rep,
                            Err(e) => {
                                active.set(index, false);
                                proof {
                                    assert(active@ =~= old(active)@);
                                }
                                return Err(e);
                            },
                        };
                        let ghost replacement_v = replacement@;
                        let rescanned = self.expand_tokens(replacement, active);
                        active.set(index, false);
                        proof {
                            assert(active@ =~= old(active)@);
                        }
                        match rescanned {
                            Ok(rs) => {
                                extend_cloned(&mut output, &rs);
                                proof {
                                    if objects {
                                        let rep = m.defs()[index as int]->ObjectLike_0@;
                                        assert(m.defs()[index as int] is ObjectLike);
                                        assert(rs_m[index as int] == Some(rep));
                                        assert(spec_expansion_of(ns, rs_m, a0, t0[k]) == Some((index as int, rep)));
                                        let a1 = a0.update(index as int, true);
                                        lemma_expand_congruent(ns, rs_m, rs_m, a1, replacement_v, rep);
                                        lemma_tokens_match_trans(rs@, spec_expand(ns, rs_m, a1, replacement_v), spec_expand(ns, rs_m, a1, rep));
                                        lemma_tokens_match_trans(output@.skip(before.len() as int), rs@, piece);
                                        assert(output@ =~= before + output@.skip(before.len() as int));
                                        lemma_tokens_match_append(before, before_spec, output@.skip(before.len() as int), piece);
                                    }
                                }
                            },
                            Err(e) => {
                                return Err(e);
                            },
                        }
                    }
                },
                None => {
                    output.push(token);
                    proof {
                        assert(output@ =~= before + seq![token]);
                        if objects {
                            lemma_tokens_match_append(before, before_spec, seq![token], seq![t0[k]]);
                        }
                        if plain {
                            assert(t0.take(k + 1) =~= t0.take(k).push(t0[k]));
                            assert forall|j: int| 0 <= j < output@.len() implies spec_same_token(#[trigger] output@[j], t0.take(k + 1)[j]) by {
                                if j < k {
                                    assert(spec_same_token(before[j], t0.take(k)[j]));
                                }
                            }
                        }
                    }
                },
            }
            proof {
                if objects {
                    assert(scanner.pos == k + 1);
                    assert(t0.take(k + 1) =~= t0.take(k) + seq![t0[k]]);
                    lemma_expand_append(ns, rs_m, a0, t0.take(k), seq![t0[k]]);
                    lemma_expand_one(ns, rs_m, a0, t0[k]);
                }
            }
        }
        proof {
            assert(t0.take(scanner.pos as int) =~= t0);
        }
        Ok(output)
    }

    fn fresh_active(&self) -> (a: Vec<bool>)
        ensures
            a@ == Seq::new(self.macros.names().len(), |i: int| false),
    {
        let mut a: Vec<bool> = Vec::new();
        let n = self.macros.len();
        let mut i: usize = 0;
        while i < n
            invariant
                i <= n,
                n == self.macros.names().len(),
                a@ == Seq::new(i as nat, |j: int| false),
            decreases n - i,
        {
            a.push(false);
            i = i + 1;
            proof {
                assert(a@ =~= Seq::new(i as nat, |j: int| false));
            }
        }
        a
    }

    fn parse_include(&mut self, scanner: &mut InputScanner, files: &FileStore, depth: usize) -> (r: Result<
        Vec<Token>,
        ProcessError,
    >)
        requires
            old(self).inv(),
            old(scanner).inv(),
            old(scanner).tokens@[old(scanner).pos as int].kind is Hash,
            files.wf(),
        ensures
            final(self).inv(),
            final(scanner).inv(),
            final(scanner).moved_on(old(scanner)),
            final(scanner).pos > old(scanner).pos,
            r is Ok ==> final(self).conditionals@.len() == old(self).conditionals@.len(),
        decreases depth, 0nat,
    {
        if !self.is_active() {
            scanner.skip_until_newline();
            return Ok(Vec::new());
        }
        match scanner.expect(&TokenKind::Hash) {
            Ok(_) => {},
            Err(e) => {
                return Err(ProcessError::Local(e));
            },
        }
        match scanner.expect_ident() {
            Ok(_) => {},
            Err(e) => {
                return Err(ProcessError::Local(e));
            },
        }
        let target = match scanner.expect_include_name() {
            Ok(i) => i,
            Err(e) => {
                return Err(ProcessError::Local(e));
            },
        };
        scanner.skip_until_newline();
        let resolved = match target.kind {
            IncludeKind::Quoted => match scanner.resolve_quoted_include_path(&target.name, target.span) {
                Ok(p) => p,
                Err(e) => {
                    return Err(ProcessError::Local(e));
                },
            },
            IncludeKind::Angle => self.resolve_angle_include_path(&target.name, target.span, files)?,
        };
        if depth == 0 {
            return Err(ProcessError::Local(PreprocessError {
                message: String::from_str("#include nested too deeply"),
                span: target.span,
            }));
        }
        let path = string_from_chars(&resolved);
        let mut included = self.process_file(&path, files, depth - 1)?;
        included.pop();
        Ok(included)
    }

    /// Preprocesses the tokens of one input, up to its end marker.
    #[verifier::rlimit(80)]
    fn process_scanner(&mut self, scanner: &mut InputScanner, files: &FileStore, depth: usize) -> (r: Result<
        Vec<Token>,
        ProcessError,
    >)
        requires
            old(self).inv(),
            old(scanner).inv(),
            files.wf(),
        ensures
            final(self).inv(),
            r matches Ok(out) ==> out@.len() > 0 && out@.last().kind is Eof
                && final(self).conditionals@.len() == old(self).conditionals@.len(),
            old(self).macros.names().len() == 0 && frames_active(old(self).conditionals@) && spec_plain_from(
                old(scanner).tokens@,
                old(scanner).pos as int,
            ) ==> (r matches Ok(out) && tokens_match(
                out@,
                spec_without_newlines(old(scanner).tokens@.subrange(old(scanner).pos as int, old(scanner).tokens@.len() as int)),
            )),
            old(self).macros.spec_objects_only() && spec_directives_output(
                old(scanner).tokens@,
                old(scanner).pos as int,
                old(self).macros.names(),
                old(self).macros.reps(),
                old(self).conditionals@,
                old(self).conditionals@.len(),
            ) is Some ==> (r matches Ok(out) && tokens_match(
                out@,
                spec_directives_output(
                    old(scanner).tokens@,
                    old(scanner).pos as int,
                    old(self).macros.names(),
                    old(self).macros.reps(),
                    old(self).conditionals@,
                    old(self).conditionals@.len(),
                )->Some_0,
            )),
            old(self).macros.spec_objects_only() && spec_directives_output(
                old(scanner).tokens@,
                old(scanner).pos as int,
                old(self).macros.names(),
                old(self).macros.reps(),
                old(self).conditionals@,
                old(self).conditionals@.len(),
            ) is Some ==> final(self).source_map == old(self).source_map,
        decreases depth, 1nat,
    {
        let ghost ts = scanner.tokens@;
        let ghost p0 = scanner.pos as int;
        let ghost plain = self.macros.names().len() == 0 && frames_active(self.conditionals@) && spec_plain_from(ts, p0);
        let ghost depth0: nat = self.conditionals@.len();
        let ghost dl = self.macros.spec_objects_only() && spec_directives_output(
            ts,
            p0,
            self.macros.names(),
            self.macros.reps(),
            self.conditionals@,
            depth0,
        ) is Some;
        let ghost total = spec_directives_output(ts, p0, self.macros.names(), self.macros.reps(), self.conditionals@, depth0)->Some_0;
        let ghost mut sreps = self.macros.reps();
        let ghost mut done: Seq<Token> = Seq::empty();
        proof {
            if dl {
                assert(spec_reps_match(sreps, self.macros.reps()));
                assert(total == done + total);
            }
        }
        let mut output: Vec<Token> = Vec::new();
        let conditional_depth = self.conditionals.len();
        proof {
            assert(ts.subrange(p0, p0) =~= Seq::<Token>::empty());
        }
        while !scanner.at_eof()
            invariant
                self.inv(),
                scanner.inv(),
                files.wf(),
                plain == (old(self).macros.names().len() == 0 && frames_active(old(self).conditionals@) && spec_plain_from(ts, p0)),
                ts == old(scanner).tokens@,
                p0 == old(scanner).pos,
                conditional_depth == old(self).conditionals@.len(),
                plain ==> {
                    &&& scanner.tokens@ == ts
                    &&& self.macros.names().len() == 0
                    &&& self.conditionals@ == old(self).conditionals@
                    &&& p0 <= scanner.pos
                    &&& tokens_match(output@, spec_without_newlines(ts.subrange(p0, scanner.pos as int)))
                },
                depth0 == old(self).conditionals@.len(),
                dl == (old(self).macros.spec_objects_only() && spec_directives_output(
                    ts,
                    p0,
                    old(self).macros.names(),
                    old(self).macros.reps(),
                    old(self).conditionals@,
                    depth0,
                ) is Some),
                total == spec_directives_output(ts, p0, old(self).macros.names(), old(self).macros.reps(), old(self).conditionals@, depth0)->Some_0,
                dl ==> {
                    &&& scanner.tokens@ == ts
                    &&& self.source_map == old(self).source_map
                    &&& self.macros.spec_objects_only()
                    &&& spec_reps_match(sreps, self.macros.reps())
                    &&& self.macros.names().len() == self.macros.reps().len()
                    &&& spec_directives_output(ts, scanner.pos as int, self.macros.names(), sreps, self.conditionals@, depth0) is Some
                    &&& total == done + spec_directives_output(ts, scanner.pos as int, self.macros.names(), sreps, self.conditionals@, depth0)->Some_0
                    &&& tokens_match(output@, done)
                },
            decreases scanner.tokens@.len() - scanner.pos,
        {
            let ghost k = scanner.pos as int;
            let ghost out_before = output@;
            let ghost names_k = self.macros.names();
            let ghost reps_k = self.macros.reps();
            let ghost sreps_k = sreps;
            let ghost done_k = done;
            let ghost conds_k = self.conditionals@;
            if scanner.peek_is(&TokenKind::Hash) {
                proof {
                    if plain {
                        assert(ts[k].kind is Hash);
                        assert(k < ts.len() - 1 ==> !(ts[k].kind is Hash));
                    }
                }
                proof {
                    if dl {
                        assert(ts[k].kind is Hash);
                        assert(k + 2 < ts.len());
                    }
                }
                let token = clone_token(scanner.peek_nth(1));
                match token.kind {
                    TokenKind::Ident(name) => {
                        let cs = crate::source::chars_of(name.as_str());
                        proof {
                            if dl {
                                reveal_strlit("define");
                                reveal_strlit("ifdef");
                                reveal_strlit("ifndef");
                                reveal_strlit("endif");
                                reveal_strlit("include");
                                assert(cs@ == ts[k + 1].kind->Ident_0@);
                                assert("define"@ =~= ['d', 'e', 'f', 'i', 'n', 'e']@);
                                assert("ifdef"@ =~= ['i', 'f', 'd', 'e', 'f']@);
                                assert("ifndef"@ =~= ['i', 'f', 'n', 'd', 'e', 'f']@);
                                assert("endif"@ =~= ['e', 'n', 'd', 'i', 'f']@);
                                assert("include"@ =~= ['i', 'n', 'c', 'l', 'u', 'd', 'e']@);
                            }
                        }
                        if eq_lit(&cs, &['d', 'e', 'f', 'i', 'n', 'e']) {
                            match self.parse_define(scanner) {
                                Ok(()) => {
                                    proof {
                                        if dl && frames_active(conds_k) {
                                            assert(spec_object_define_at(ts, k));
                                            let n = ts[k + 2].kind->Ident_0@;
                                            let q = spec_line_end(ts, k + 3);
                                            lemma_line_end_bounds(ts, k + 3);
                                            let sub = ts.subrange(k + 3, q);
                                            let new_sreps = spec_reps_after(names_k, sreps_k, n, Some(sub));
                                            let exec_after = spec_reps_after(names_k, reps_k, n, Some(sub));
                                            lemma_reps_after_congruent(names_k, sreps_k, reps_k, n, sub, sub);
                                            lemma_reps_match_symm(self.macros.reps(), exec_after);
                                            lemma_reps_match_trans(new_sreps, exec_after, self.macros.reps());
                                            sreps = new_sreps;
                                            assert(self.macros.names() == spec_names_after(names_k, n));
                                        }
                                    }
                                },
                                Err(e) => {
                                    return Err(ProcessError::Local(e));
                                },
                            }
                        } else if eq_lit(&cs, &['i', 'f', 'd', 'e', 'f']) {
                            match self.parse_ifdef(scanner, false) {
                                Ok(()) => {},
                                Err(e) => {
                                    return Err(ProcessError::Local(e));
                                },
                            }
                        } else if eq_lit(&cs, &['i', 'f', 'n', 'd', 'e', 'f']) {
                            match self.parse_ifdef(scanner, true) {
                                Ok(()) => {},
                                Err(e) => {
                                    return Err(ProcessError::Local(e));
                                },
                            }
                        } else if eq_lit(&cs, &['e', 'n', 'd', 'i', 'f']) {
                            match self.parse_endif(scanner) {
                                Ok(()) => {},
                                Err(e) => {
                                    return Err(ProcessError::Local(e));
                                },
                            }
                        } else if eq_lit(&cs, &['i', 'n', 'c', 'l', 'u', 'd', 'e']) {
                            let included = self.parse_include(scanner, files, depth)?;
                            let mut k: usize = 0;
                            while k < included.len()
                                decreases included.len() - k,
                            {
                                output.push(clone_token(&included[k]));
                                k = k + 1;
                            }
                        } else {
                            if self.is_active() {
                                let mut msg = String::from_str("unsupported preprocessor directive '");
                                push_str(&mut msg, name.as_str());
                                push_str(&mut msg, "'");
                                return Err(ProcessError::Local(PreprocessError { message: msg, span: token.span }));
                            }
                            scanner.skip_until_newline();
                            proof {
                                if dl {
                                    assert(spec_line_end(ts, k) == spec_line_end(ts, k + 1));
                                }
                            }
                        }
                    },
                    TokenKind::KwElse => {
                        match self.parse_else(scanner) {
                            Ok(()) => {},
                            Err(e) => {
                                return Err(ProcessError::Local(e));
                            },
                        }
                    },
                    kind => {
                        let mut msg = String::from_str("expected preprocessor directive after '#', got '");
                        push_kind_debug(&mut msg, &kind);
                        push_str(&mut msg, "'");
                        return Err(ProcessError::Local(PreprocessError { message: msg, span: token.span }));
                    },
                }
            } else if scanner.peek_is(&TokenKind::Newline) {
                scanner.advance();
                proof {
                    if plain {
                        assert(ts.subrange(p0, k + 1) =~= ts.subrange(p0, k).push(ts[k]));
                        lemma_without_newlines_push(ts.subrange(p0, k), ts[k]);
                    }
                    if dl {
                        assert(ts[k].kind is Newline);
                        assert(spec_directives_output(ts, k, names_k, sreps_k, conds_k, depth0) == spec_directives_output(
                            ts,
                            k + 1,
                            names_k,
                            sreps_k,
                            conds_k,
                            depth0,
                        ));
                    }
                }
            } else {
                let chunk = scanner.collect_normal_tokens();
                let ghost k2 = scanner.pos as int;
                let ghost chunk_v = chunk@;
                proof {
                    if dl {
                        assert(!(ts[k].kind is Newline) && !(ts[k].kind is Hash) && !(ts[k].kind is Eof));
                        assert(k < k2);
                        lemma_chunk_end_at(ts, k + 1, k2);
                    }
                }
                if self.is_active() {
                    let mut active = self.fresh_active();
                    proof {
                        if plain {
                            assert forall|i: int| 0 <= i < chunk_v.len() implies ((#[trigger] chunk_v[i]).kind matches TokenKind::Ident(n)
                                ==> self.macros.spec_get(n@) is None) by {
                                if let TokenKind::Ident(n) = chunk_v[i].kind {
                                    assert(!(exists|j: int| 0 <= j < self.macros.names().len() && self.macros.names()[j] == n@));
                                }
                            }
                        }
                    }
                    match self.expand_tokens(chunk, &mut active) {
                        Ok(expanded) => {
                            let mut j: usize = 0;
                            proof {
                                assert(out_before + expanded@.take(0) =~= out_before);
                                assert forall|i: int| 0 <= i < output@.len() implies spec_same_token(#[trigger] output@[i], (out_before + expanded@.take(0))[i]) by {
                                }
                            }
                            while j < expanded.len()
                                invariant
                                    j <= expanded@.len(),
                                    tokens_match(output@, out_before + expanded@.take(j as int)),
                                decreases expanded.len() - j,
                            {
                                let ghost before = output@;
                                output.push(clone_token(&expanded[j]));
                                proof {
                                    assert(out_before + expanded@.take(j + 1) =~= (out_before + expanded@.take(j as int)).push(expanded@[j as int]));
                                    assert forall|i: int| 0 <= i < output@.len() implies spec_same_token(#[trigger] output@[i], (out_before + expanded@.take(j + 1))[i]) by {
                                        if i < before.len() {
                                            assert(spec_same_token(before[i], (out_before + expanded@.take(j as int))[i]));
                                        }
                                    }
                                }
                                j = j + 1;
                            }
                            proof {
                                assert(expanded@.take(j as int) =~= expanded@);
                                if plain {
                                    let sub1 = ts.subrange(p0, k);
                                    let sub2 = ts.subrange(k, k2);
                                    assert(sub1 + sub2 =~= ts.subrange(p0, k2));
                                    assert forall|i: int| 0 <= i < sub2.len() implies !((#[trigger] sub2[i]).kind is Newline) by {
                                        assert(sub2[i] == ts[k + i]);
                                    }
                                    lemma_without_newlines_append(sub1, sub2);
                                    lemma_tokens_match_trans(expanded@, chunk_v, sub2);
                                    lemma_tokens_match_append(out_before, spec_without_newlines(sub1), expanded@, sub2);
                                    lemma_tokens_match_trans(output@, out_before + expanded@, spec_without_newlines(sub1) + sub2);
                                }
                                if dl {
                                    let none = Seq::new(names_k.len(), |i: int| false);
                                    let sub = ts.subrange(k, k2);
                                    let piece = spec_expand(names_k, sreps_k, none, sub);
                                    assert(active@ =~= none);
                                    lemma_reps_match_symm(sreps_k, reps_k);
                                    lemma_expand_congruent(names_k, reps_k, sreps_k, none, chunk_v, sub);
                                    lemma_tokens_match_trans(expanded@, spec_expand(names_k, reps_k, none, chunk_v), piece);
                                    lemma_tokens_match_append(out_before, done_k, expanded@, piece);
                                    lemma_tokens_match_trans(output@, out_before + expanded@, done_k + piece);
                                    let rest = spec_directives_output(ts, k2, names_k, sreps_k, conds_k, depth0)->Some_0;
                                    assert(spec_directives_output(ts, k, names_k, sreps_k, conds_k, depth0) == Some(piece + rest));
                                    assert(done_k + (piece + rest) =~= (done_k + piece) + rest);
                                    done = done_k + piece;
                                }
                            }
                        },
                        Err(e) => {
                            return Err(ProcessError::Local(e));
                        },
                    }
                } else {
                    proof {
                        if dl {
                            assert(!frames_active(conds_k));
                            assert(spec_directives_output(ts, k, names_k, sreps_k, conds_k, depth0) == spec_directives_output(
                                ts,
                                k2,
                                names_k,
                                sreps_k,
                                conds_k,
                                depth0,
                            ));
                        }
                    }
                }
            }
        }
        let ghost k = scanner.pos as int;
        let ghost out_before = output@;
        let eof = scanner.advance();
        if self.conditionals.len() != conditional_depth {
            return Err(ProcessError::Local(PreprocessError {
                message: String::from_str("unterminated conditional directive"),
                span: eof.span,
            }));
        }
        output.push(eof);
        proof {
            if plain {
                assert(k == ts.len() - 1) by {
                    assert(k < ts.len() - 1 ==> !(ts[k].kind is Eof));
                }
                assert(ts.subrange(p0, ts.len() as int) =~= ts.subrange(p0, k).push(ts[k]));
                lemma_without_newlines_push(ts.subrange(p0, k), ts[k]);
                assert forall|i: int| 0 <= i < output@.len() implies spec_same_token(#[trigger] output@[i], spec_without_newlines(ts.subrange(p0, ts.len() as int))[i]) by {
                    if i < out_before.len() {
                        assert(spec_same_token(out_before[i], spec_without_newlines(ts.subrange(p0, k))[i]));
                    }
                }
            }
        }
        Ok(output)
    }

    /// Reads, lexes and preprocesses one file, taking its text from the store.
    fn process_file(&mut self, path: &String, files: &FileStore, depth: usize) -> (r: Result<Vec<Token>, ProcessError>)
        requires
            old(self).inv(),
            files.wf(),
        ensures
            final(self).inv(),
            r matches Ok(out) ==> out@.len() > 0 && out@.last().kind is Eof
                && final(self).conditionals@.len() == old(self).conditionals@.len(),
            match files.spec_entry(path@) {
                None => r matches Err(ProcessError::NeedFile(p)) && p@ == path@,
                Some(Err(m)) => r matches Err(ProcessError::File(PreprocessFileError::Io { path: p, message })) && p@ == path@
                    && message@ == m@,
                Some(Ok(t)) => {
                    let src = spec_splice(t@);
                    let fid = FileId(old(self).source_map.files().len() as usize);
                    match spec_lex_from(src, 0, seq![]) {
                        Err((m, a, b)) => r matches Err(
                            ProcessError::File(PreprocessFileError::Lex { path: p, source, span, message }),
                        ) && p@ == path@ && source@ == src && message@ == m && span == spec_span(src, fid, a, b),
                        Ok(_) => old(self).macros.spec_objects_only() && (forall|toks: Seq<Token>| #[trigger]
                            spec_lexes_to(src, fid, toks) ==> spec_directives_output(
                            toks,
                            0,
                            old(self).macros.names(),
                            old(self).macros.reps(),
                            old(self).conditionals@,
                            old(self).conditionals@.len(),
                        ) is Some) ==> r is Ok,
                    }
                },
            },
            !(r matches Err(ProcessError::Local(_))),
            files.spec_entry(path@) matches Some(Ok(t)) ==> (old(self).macros.spec_objects_only() ==> (r matches Ok(out) ==> exists|toks: Seq<Token>|
                #[trigger] spec_lexes_to(spec_splice(t@), FileId(old(self).source_map.files().len() as usize), toks) && (spec_directives_output(
                toks,
                0,
                old(self).macros.names(),
                old(self).macros.reps(),
                old(self).conditionals@,
                old(self).conditionals@.len(),
            ) matches Some(o) ==> tokens_match(out@, o) && spec_one_file_added(
                old(self).source_map.files(),
                final(self).source_map.files(),
                path@,
                spec_splice(t@),
            )))),
        decreases depth, 2nat,
    {
        let ghost n0 = self.source_map.files().len();
        let text = match files.lookup(path) {
            None => {
                return Err(ProcessError::NeedFile(path.clone()));
            },
            Some(Err(message)) => {
                return Err(ProcessError::File(PreprocessFileError::Io { path: path.clone(), message: message.clone() }));
            },
            Some(Ok(text)) => text,
        };
        let source = splice_escaped_newlines(text.as_str());
        proof {
            lemma_remove_all_byte_len(text@, seq!['\\', '\r', '\n']);
            lemma_remove_all_byte_len(spec_remove_all(text@, seq!['\\', '\r', '\n']), seq!['\\', '\n']);
        }
        let file_id = self.source_map.add_file(path.as_str(), source.clone());
        let tokens = match lex(source.as_str(), file_id) {
            Ok(t) => t,
            Err(err) => {
                return Err(ProcessError::File(PreprocessFileError::Lex {
                    path: path.clone(),
                    source,
                    span: err.span,
                    message: err.message,
                }));
            },
        };
        proof {
            assert(file_id == FileId(n0 as usize));
            assert(files.spec_entry(path@) == Some(Ok::<String, String>(*text)));
            assert(source@ == spec_splice(text@));
            assert(spec_lexes_to(source@, file_id, tokens@));
            assert(self.macros == old(self).macros);
            assert(self.conditionals == old(self).conditionals);
        }
        let ghost lexed = tokens@;
        let mut scanner = InputScanner { tokens, pos: 0, path: Some(path.clone()), text: Some(chars_of(source.as_str())) };
        match self.process_scanner(&mut scanner, files, depth) {
            Ok(tokens) => {
                proof {
                    assert(spec_lexes_to(spec_splice(text@), FileId(old(self).source_map.files().len() as usize), lexed));
                }
                Ok(tokens)
            },
            Err(ProcessError::Local(err)) => Err(ProcessError::File(PreprocessFileError::Preprocess {
                path: path.clone(),
                source,
                span: err.span,
                message: err.message,
            })),
            Err(e) => Err(e),
        }
    }
}

fn eq_lit(a: &Vec<char>, b: &[char]) -> (r: bool)
    ensures
        r == (a@ == b@),
{
    if a.len() != b.len() {
        return false;
    }
    let mut i: usize = 0;
    while i < a.len()
        invariant
            a@.len() == b@.len(),
            i <= a@.len(),
            forall|k: int| 0 <= k < i ==> a@[k] == b@[k],
        decreases a.len() - i,
    {
        if a[i] != b[i] {
            return false;
        }
        i = i + 1;
    }
    proof {
        assert(a@ =~= b@);
    }
    true
}

/// Expands the supported preprocessing directives in a token stream that ends
/// with its end marker. The result ends with the end marker too. A stream with
/// no directive (no `#`, and no end marker before the last token) comes out
/// token for token as it went in, without its line breaks; one whose only
/// directives define object-like macros or are `#ifdef`, `#ifndef`, `#else`
/// and `#endif` comes out as [`spec_directives_output`] says: inactive text
/// dropped, and each macro name after its definition replaced by its expansion.
pub fn preprocess(tokens: Vec<Token>) -> (r: Result<Vec<Token>, PreprocessError>)
    requires
        tokens@.len() > 0,
        tokens@.last().kind is Eof,
    ensures
        r matches Ok(out) ==> out@.len() > 0 && out@.last().kind is Eof,
        spec_plain_from(tokens@, 0) ==> (r matches Ok(out) && tokens_match(out@, spec_without_newlines(tokens@))),
        spec_directives_output(tokens@, 0, Seq::empty(), Seq::empty(), Seq::empty(), 0) matches Some(o) ==> (r matches Ok(out) && tokens_match(
            out@,
            o,
        )),
{
    let ghost t0 = tokens@;
    let mut preprocessor = Preprocessor::new();
    let end_span = tokens[tokens.len() - 1].span;
    let mut scanner = InputScanner { tokens, pos: 0, path: None, text: None };
    let files = FileStore::new();
    proof {
        assert(t0.subrange(0, t0.len() as int) =~= t0);
        assert(preprocessor.macros.names() =~= Seq::<Seq<char>>::empty());
        assert(preprocessor.macros.reps() =~= Seq::<Option<Seq<Token>>>::empty());
        assert(preprocessor.conditionals@ =~= Seq::<ConditionalFrame>::empty());
    }
    match preprocessor.process_scanner(&mut scanner, &files, MAX_INCLUDE_DEPTH) {
        Ok(out) => Ok(out),
        Err(ProcessError::Local(err)) => Err(err),
        Err(_) => Err(PreprocessError {
            message: String::from_str("cannot read included files without a source file path"),
            span: end_span,
        }),
    }
}

/// One attempt at preprocessing the file at `path`, with file contents taken
/// from `files`. Stops at the first file whose contents the store lacks and
/// names it; the caller reads it into the store and tries again.
pub fn preprocess_file(path: &str, files: &FileStore) -> (r: FileStep)
    requires
        files.wf(),
    ensures
        r matches FileStep::Done(Ok(f)) ==> f.tokens@.len() > 0 && f.tokens@.last().kind is Eof && f.source_map.wf(),
        match files.spec_entry(path@) {
            None => r matches FileStep::NeedFile(p) && p@ == path@,
            Some(Err(m)) => r matches FileStep::Done(Err(PreprocessFileError::Io { path: p, message })) && p@ == path@
                && message@ == m@,
            Some(Ok(t)) => {
                let src = spec_splice(t@);
                match spec_lex_from(src, 0, seq![]) {
                    Err((m, a, b)) => r matches FileStep::Done(Err(PreprocessFileError::Lex { path: p, source, span, message }))
                        && p@ == path@ && source@ == src && message@ == m && span == spec_span(src, FileId(0), a, b),
                    Ok(_) => (forall|toks: Seq<Token>| #[trigger] spec_lexes_to(src, FileId(0), toks) ==> spec_directives_output(
                        toks,
                        0,
                        Seq::empty(),
                        Seq::empty(),
                        Seq::empty(),
                        0,
                    ) is Some) ==> r matches FileStep::Done(Ok(_)),
                }
            },
        },
        files.spec_entry(path@) matches Some(Ok(t)) ==> (r matches FileStep::Done(Ok(f)) ==> exists|toks: Seq<Token>|
            #[trigger] spec_lexes_to(spec_splice(t@), FileId(0), toks) && (spec_directives_output(
            toks,
            0,
            Seq::empty(),
            Seq::empty(),
            Seq::empty(),
            0,
        ) matches Some(o) ==> tokens_match(f.tokens@, o) && spec_one_file_added(
            Seq::empty(),
            f.source_map.files(),
            path@,
            spec_splice(t@),
        ))),
{
    let mut preprocessor = Preprocessor::new();
    let p = String::from_str(path);
    proof {
        assert(preprocessor.macros.names() =~= Seq::<Seq<char>>::empty());
        assert(preprocessor.macros.reps() =~= Seq::<Option<Seq<Token>>>::empty());
        assert(preprocessor.conditionals@ =~= Seq::<ConditionalFrame>::empty());
        assert(preprocessor.source_map.files() =~= Seq::<SourceFile>::empty());
        assert(preprocessor.macros.spec_objects_only());
        assert(p@ == path@);
    }
    match preprocessor.process_file(&p, files, MAX_INCLUDE_DEPTH) {
        Ok(tokens) => FileStep::Done(Ok(PreprocessedFile { tokens, source_map: preprocessor.source_map })),
        Err(ProcessError::File(e)) => FileStep::Done(Err(e)),
        Err(ProcessError::NeedFile(p)) => FileStep::NeedFile(p),
        Err(ProcessError::Local(e)) => {
            proof {
                assert(false);
            }
            FileStep::Done(Err(PreprocessFileError::Preprocess {
                path: String::from_str(path),
                source: String::new(),
                span: e.span,
                message: e.message,
            }))
        },
    }
}



/// Law (conditional inclusion): in active text, `#ifdef N` opens a region that
/// is active exactly when `N` is defined and `#ifndef N` one that is active
/// exactly when it is not; the scan goes on after the directive's line with
/// that region open. Nested in inactive text, the region is inactive.
pub proof fn law_ifdef_region(
    ts: Seq<Token>,
    p: int,
    names: Seq<Seq<char>>,
    reps: Seq<Option<Seq<Token>>>,
    frames: Seq<ConditionalFrame>,
    depth: nat,
)
    requires
        0 <= p,
        p + 3 < ts.len(),
        ts[p].kind is Hash,
        ts[p + 1].kind matches TokenKind::Ident(d) && (d@ == "ifdef"@ || d@ == "ifndef"@),
        ts[p + 2].kind is Ident,
    ensures
        exists|f: ConditionalFrame|
            spec_directives_output(ts, p, names, reps, frames, depth) == spec_directives_output(
                ts,
                spec_after_line(ts, p + 3),
                names,
                reps,
                #[trigger] frames.push(f),
                depth,
            ) && f.current_active == (frames_active(frames) && ((spec_name_index(names, ts[p + 2].kind->Ident_0@) is Some)
                == (ts[p + 1].kind->Ident_0@ == "ifdef"@))) && !f.saw_else,
{
    reveal_strlit("ifdef");
    reveal_strlit("ifndef");
    reveal_strlit("define");
    let d = ts[p + 1].kind->Ident_0@;
    assert(d != "define"@) by {
        if d == "ifdef"@ {
            assert(d.len() != "define"@.len());
        } else {
            assert(d[0] != "define"@[0]);
        }
    }
    let n = ts[p + 2].kind->Ident_0;
    let defined = spec_name_index(names, n@) is Some;
    let met = if d == "ifdef"@ { defined } else { !defined };
    let f = spec_ifdef_frame(frames_active(frames), met);
    assert(spec_directives_output(ts, p, names, reps, frames, depth) == spec_directives_output(
        ts,
        spec_after_line(ts, p + 3),
        names,
        reps,
        frames.push(f),
        depth,
    ));
}

/// Law: the `#else` of a conditional region is active exactly when the text
/// around the region is active and the region's own condition was not met,
/// and a second `#else` is refused; `#endif` returns to the surrounding region.
pub proof fn law_else_region(frames: Seq<ConditionalFrame>, parent_active: bool, met: bool)
    ensures
        spec_else_frame(spec_ifdef_frame(parent_active, met)).current_active == (parent_active && !met),
        spec_else_frame(spec_ifdef_frame(parent_active, met)).saw_else,
        frames.push(spec_ifdef_frame(parent_active, met)).drop_last() == frames,
{
    assert(frames.push(spec_ifdef_frame(parent_active, met)).drop_last() =~= frames);
}

} // verus!
