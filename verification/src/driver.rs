//! The compilation pipeline: preprocess, parse, check, generate; and the
//! spelling of its diagnostics.
use crate::codegen::{can_generate, gen_program_ok, generate, program_asm, CodegenTarget};
use crate::ast::Program;
use crate::lexer::Token;
use crate::lex_rules::spec_lex_from;
use crate::parser::{check_parseable, parse, parseable_tokens, spec_parsed, spec_plain_globals};
use crate::preprocess::{
    preprocess_file, spec_directives_output, spec_lexes_to, spec_splice, tokens_match, FileStep, FileStore,
    PreprocessFileError, PreprocessedFile,
};
use crate::sema::{check, spec_checked, spec_defs_declarable, spec_function_defs, spec_has_main, spec_plain_functions};
use crate::source::{
    chars_of, count_before, lemma_byte_len_prefix_mono, lemma_count_before, spec_byte_len, utf8_len, FileId, SourceMap, Span,
};
use crate::text::{push_str, push_u64, spec_decimal};
use crate::typed_ast::TypedProgram;
use vstd::prelude::*;

verus! {

/// The 1-based line and column just after the characters of `t`: each
/// newline starts a new line at column 1, every other character moves one column.
pub open spec fn text_line_col(t: Seq<char>) -> (int, int)
    decreases t.len(),
{
    if t.len() == 0 {
        (1, 1)
    } else {
        let p = text_line_col(t.drop_last());
        if t.last() == '\n' {
            (p.0 + 1, 1)
        } else {
            (p.0, p.1 + 1)
        }
    }
}

proof fn lemma_text_line_col_bound(t: Seq<char>)
    ensures
        1 <= text_line_col(t).0 <= t.len() + 1,
        1 <= text_line_col(t).1 <= t.len() + 1,
    decreases t.len(),
{
    if t.len() > 0 {
        lemma_text_line_col_bound(t.drop_last());
    }
}

/// The 1-based line and column, in characters, of byte `offset` of `source`.
pub fn line_col(source: &str, offset: usize) -> (r: (usize, usize))
    requires
        source@.len() < usize::MAX,
    ensures
        r.0 as int == text_line_col(source@.take(count_before(source@, offset as int) as int)).0,
        r.1 as int == text_line_col(source@.take(count_before(source@, offset as int) as int)).1,
{
    let chars = chars_of(source);
    let mut line: usize = 1;
    let mut col: usize = 1;
    let mut byte_index: usize = 0;
    let mut i: usize = 0;
    while i < chars.len()
        invariant_except_break
            byte_index as int == spec_byte_len(chars@.take(i as int)),
        invariant
            chars@ == source@,
            chars@.len() < usize::MAX,
            i <= chars@.len(),
            i == 0 || spec_byte_len(chars@.take(i - 1)) < offset,
            line as int == text_line_col(chars@.take(i as int)).0,
            col as int == text_line_col(chars@.take(i as int)).1,
        ensures
            i == chars@.len() || spec_byte_len(chars@.take(i as int)) >= offset,
            i == 0 || spec_byte_len(chars@.take(i - 1)) < offset,
            line as int == text_line_col(chars@.take(i as int)).0,
            col as int == text_line_col(chars@.take(i as int)).1,
        decreases chars.len() - i,
    {
        if byte_index >= offset {
            break;
        }
        let ch = chars[i];
        proof {
            assert(chars@.take(i + 1).drop_last() =~= chars@.take(i as int));
            lemma_text_line_col_bound(chars@.take(i as int));
        }
        let len = utf8_len(ch);
        if ch == '\n' {
            line = line + 1;
            col = 1;
        } else {
            col = col + 1;
        }
        i = i + 1;
        if byte_index > usize::MAX - len {
            proof {
                assert(chars@.take(i as int).drop_last() =~= chars@.take(i - 1));
            }
            break;
        }
        byte_index = byte_index + len;
    }
    proof {
        lemma_count_before(chars@, offset as int, i as int);
    }
    (line, col)
}

/// A diagnostic: `path:line:column: error: message`.
pub open spec fn spec_diagnostic(path: Seq<char>, line: nat, col: nat, message: Seq<char>) -> Seq<char> {
    path + ":"@ + spec_decimal(line) + ":"@ + spec_decimal(col) + ": error: "@ + message
}

/// Spells a diagnostic at a location.
pub fn format_diagnostic(path: &str, line: usize, col: usize, message: &str) -> (s: String)
    ensures
        s@ == spec_diagnostic(path@, line as nat, col as nat, message@),
{
    let mut s = String::from_str(path);
    push_str(&mut s, ":");
    push_u64(&mut s, line as u64);
    push_str(&mut s, ":");
    push_u64(&mut s, col as u64);
    push_str(&mut s, ": error: ");
    push_str(&mut s, message);
    proof {
        assert(s@ =~= spec_diagnostic(path@, line as nat, col as nat, message@));
    }
    s
}

/// A diagnostic without a location: `error: message`.
pub fn format_bare_error(message: &str) -> (s: String)
    ensures
        s@ == "error: "@ + message@,
{
    let mut s = String::from_str("error: ");
    push_str(&mut s, message);
    s
}

/// The diagnostic of an error at a span of a file of the map: its path, line
/// and column when the span lies in a known file, no location otherwise.
pub fn format_span_error(map: &SourceMap, span: Span, message: &str) -> (s: String)
    requires
        map.wf(),
    ensures
        span.file_id.0 < map.files().len() && span.start < usize::MAX ==> exists|line: usize, col: usize| {
            &&& crate::source::spec_line_col_at(map.files()[span.file_id.0 as int].starts(), span.start, line, col)
            &&& s@ == spec_diagnostic(map.files()[span.file_id.0 as int].path_chars(), line as nat, col as nat, message@)
        },
        !(span.file_id.0 < map.files().len() && span.start < usize::MAX) ==> s@ == "error: "@ + message@,
{
    if span.file_id.0 < map.file_count() && span.start < usize::MAX {
        let location = map.location(span);
        format_diagnostic(location.path.as_str(), location.line, location.column, message)
    } else {
        format_bare_error(message)
    }
}

/// The diagnostic of a failure to read, lex or preprocess a file.
pub fn format_file_error(e: &PreprocessFileError) -> (s: String)
    ensures
        e matches PreprocessFileError::Io { path, message } ==> s@ == "failed to read path '"@ + path@ + "': "@
            + message@,
        e matches PreprocessFileError::Lex { path, source, span, message } ==> source@.len() < usize::MAX ==> s@
            == spec_diagnostic(
            path@,
            text_line_col(source@.take(count_before(source@, span.start as int) as int)).0 as nat,
            text_line_col(source@.take(count_before(source@, span.start as int) as int)).1 as nat,
            message@,
        ),
        e matches PreprocessFileError::Preprocess { path, source, span, message } ==> source@.len() < usize::MAX
            ==> s@ == spec_diagnostic(
            path@,
            text_line_col(source@.take(count_before(source@, span.start as int) as int)).0 as nat,
            text_line_col(source@.take(count_before(source@, span.start as int) as int)).1 as nat,
            message@,
        ),
{
    match e {
        PreprocessFileError::Io { path, message } => {
            let mut s = String::from_str("failed to read path '");
            push_str(&mut s, path.as_str());
            push_str(&mut s, "': ");
            push_str(&mut s, message.as_str());
            proof {
                assert(s@ =~= "failed to read path '"@ + path@ + "': "@ + message@);
            }
            s
        },
        PreprocessFileError::Lex { path, source, span, message } | PreprocessFileError::Preprocess {
            path,
            source,
            span,
            message,
        } => {
            let n = chars_of(source.as_str()).len();
            if n < usize::MAX {
                let (line, col) = line_col(source.as_str(), span.start);
                format_diagnostic(path.as_str(), line, col, message.as_str())
            } else {
                format_bare_error(message.as_str())
            }
        },
    }
}

/// The assembly of the tokens: that of a typed program checked from a program
/// read from the tokens, which the generator handles.
pub open spec fn compiled_assembly(tokens: Seq<Token>, assembly: Seq<char>) -> bool {
    exists|p: Program, tp: TypedProgram|
        #![trigger spec_parsed(tokens, p), spec_checked(p, tp)]
        spec_parsed(tokens, p) && spec_checked(p, tp) && gen_program_ok(tp) && assembly == program_asm(tp.declarations@, 0).0
}

/// Tokens that are owed an assembly: they read as plain declarations and
/// definitions (see [`spec_plain_globals`]); every program read from them has
/// declarable definitions, one named `main`, each with parameters of distinct
/// names, an integer return type and a body of plain statements; and every
/// typed program checked from such a program can be generated.
pub open spec fn spec_compiles(tokens: Seq<Token>) -> bool {
    &&& parseable_tokens(tokens)
    &&& spec_plain_globals(tokens, 0)
    &&& forall|p: Program| #[trigger] spec_parsed(tokens, p) ==> {
        &&& spec_defs_declarable(spec_function_defs(p.declarations@))
        &&& spec_has_main(spec_function_defs(p.declarations@))
        &&& spec_plain_functions(p.declarations@)
    }
    &&& forall|p: Program, tp: TypedProgram|
        #![trigger spec_parsed(tokens, p), spec_checked(p, tp)]
        spec_parsed(tokens, p) && spec_checked(p, tp) ==> gen_program_ok(tp)
}

/// A spliced file text that is owed an assembly: it lexes; every lexing of it
/// preprocesses, its directives being of the kinds [`spec_directives_output`]
/// covers; and every token stream that preprocessing can give for it is owed
/// an assembly (see [`spec_compiles`]).
pub open spec fn spec_file_compiles(src: Seq<char>) -> bool {
    &&& spec_lex_from(src, 0, seq![]) is Ok
    &&& forall|toks: Seq<Token>| #[trigger] spec_lexes_to(src, FileId(0), toks) ==> spec_directives_output(
        toks,
        0,
        Seq::empty(),
        Seq::empty(),
        Seq::empty(),
        0,
    ) is Some
    &&& forall|toks: Seq<Token>, out: Seq<Token>|
        #![trigger spec_lexes_to(src, FileId(0), toks), spec_compiles(out)]
        spec_lexes_to(src, FileId(0), toks) && (spec_directives_output(toks, 0, Seq::empty(), Seq::empty(), Seq::empty(), 0) matches Some(
            o,
        ) && tokens_match(out, o)) ==> spec_compiles(out)
}

/// Compiles preprocessed tokens: parse, check, generate. A stream that cannot
/// be parsed (a character constant out of range) is refused first; a parse or
/// semantic error gives its diagnostic at the file, line and column of its span.
pub fn compile_preprocessed(file: PreprocessedFile) -> (r: Result<String, String>)
    requires
        file.source_map.wf(),
    ensures
        r matches Ok(assembly) ==> compiled_assembly(file.tokens@, assembly@),
        !parseable_tokens(file.tokens@) ==> (r matches Err(m) && m@ == "error: "@ + "character literal out of range"@),
        spec_compiles(file.tokens@) ==> r is Ok,
{
    let ghost toks = file.tokens@;
    let PreprocessedFile { tokens, source_map } = file;
    if !check_parseable(&tokens) {
        return Err(format_bare_error("character literal out of range"));
    }
    let program = match parse(tokens) {
        Ok(p) => p,
        Err(e) => {
            return Err(format_span_error(&source_map, e.span, e.message.as_str()));
        },
    };
    let typed_program = match check(&program) {
        Ok(tp) => tp,
        Err(e) => {
            return Err(format_span_error(&source_map, e.span, e.message.as_str()));
        },
    };
    if !can_generate(&typed_program) {
        return Err(format_bare_error("the program uses a construct that code generation does not support"));
    }
    let assembly = generate(&typed_program, CodegenTarget::Rv32);
    proof {
        assert(spec_parsed(toks, program) && spec_checked(program, typed_program) && gen_program_ok(typed_program)
            && assembly@ == program_asm(typed_program.declarations@, 0).0);
    }
    Ok(assembly)
}

/// One attempt at compiling the file at `path` with the file contents known so
/// far: assembly or a diagnostic, or the path of a file still to be read.
pub enum CompileStep {
    Done(Result<String, String>),
    NeedFile(String),
}

/// Compiles the file at `path`, with file contents taken from `files`. Stops
/// at the first file the store lacks and names it; a failure to read, lex or
/// preprocess gives its diagnostic.
pub fn compile(path: &str, files: &FileStore) -> (r: CompileStep)
    requires
        files.wf(),
    ensures
        r matches CompileStep::Done(Ok(assembly)) ==> exists|tokens: Seq<Token>| #[trigger] compiled_assembly(tokens, assembly@),
        files.spec_entry(path@) matches Some(Ok(t)) ==> (r matches CompileStep::Done(Ok(assembly)) ==> exists|
            toks: Seq<Token>,
            out: Seq<Token>,
        |
            #![trigger spec_lexes_to(spec_splice(t@), FileId(0), toks), compiled_assembly(out, assembly@)]
            spec_lexes_to(spec_splice(t@), FileId(0), toks) && compiled_assembly(out, assembly@) && (spec_directives_output(
                toks,
                0,
                Seq::empty(),
                Seq::empty(),
                Seq::empty(),
                0,
            ) matches Some(o) ==> tokens_match(out, o))),
        files.spec_entry(path@) is None ==> (r matches CompileStep::NeedFile(p) && p@ == path@),
        files.spec_entry(path@) matches Some(Ok(t)) ==> (spec_file_compiles(spec_splice(t@)) ==> r matches CompileStep::Done(Ok(_))),
        files.spec_entry(path@) matches Some(Err(m)) ==> (r matches CompileStep::Done(Err(d)) && d@ == "failed to read path '"@
            + path@ + "': "@ + m@),
{
    match preprocess_file(path, files) {
        FileStep::NeedFile(p) => CompileStep::NeedFile(p),
        FileStep::Done(Err(e)) => CompileStep::Done(Err(format_file_error(&e))),
        FileStep::Done(Ok(file)) => {
            let ghost toks = file.tokens@;
            proof {
                if let Some(Ok(t)) = files.spec_entry(path@) {
                    if spec_file_compiles(spec_splice(t@)) {
                        let lexed = choose|lx: Seq<Token>| #[trigger] spec_lexes_to(spec_splice(t@), FileId(0), lx) && (spec_directives_output(
                            lx,
                            0,
                            Seq::empty(),
                            Seq::empty(),
                            Seq::empty(),
                            0,
                        ) matches Some(o) ==> tokens_match(toks, o));
                        assert(spec_lexes_to(spec_splice(t@), FileId(0), lexed));
                        assert(spec_compiles(toks));
                    }
                }
            }
            let r = compile_preprocessed(file);
            proof {
                if r is Ok {
                    assert(compiled_assembly(toks, r->Ok_0@));
                    if let Some(Ok(t)) = files.spec_entry(path@) {
                        let lexed = choose|lx: Seq<Token>| #[trigger] spec_lexes_to(spec_splice(t@), FileId(0), lx) && (spec_directives_output(
                            lx,
                            0,
                            Seq::empty(),
                            Seq::empty(),
                            Seq::empty(),
                            0,
                        ) matches Some(o) ==> tokens_match(toks, o));
                        assert(spec_lexes_to(spec_splice(t@), FileId(0), lexed) && compiled_assembly(toks, r->Ok_0@));
                    }
                }
            }
            CompileStep::Done(r)
        },
    }
}

} // verus!
