//! Linker tooling: the GNU-ld linker-script subset (tokenizer and stack
//! parser), typed linker inputs, and library search-path resolution.

use vstd::prelude::*;

verus! {

use vstd::string::StrSliceExecFns;
use vstd::string::StringExecFns;
use crate::text;
use crate::filetype;
use crate::filetype::FileTypeCache;

/// The resolution-time filter a library reference carries.
#[derive(Copy, Clone, Debug, Eq, PartialEq, Structural)]
pub enum AllowedTypes {
    Any,
    Bitcode,
    Native,
}

/// One linker input: a library reference (exact filename when `bool` is set,
/// else a symbolic `-l` name) with its type filter, a plain file, or a flag
/// passed through verbatim.
#[derive(Clone, Debug)]
pub enum Input {
    Library(bool, String, AllowedTypes),
    File(String),
    Flag(String),
}

/// The specification-level view of an `Input`.
pub enum InputView {
    Library(bool, Seq<char>, AllowedTypes),
    File(Seq<char>),
    Flag(Seq<char>),
}

impl DeepView for Input {
    type V = InputView;

    open spec fn deep_view(&self) -> InputView {
        match self {
            Input::Library(abs, name, at) => InputView::Library(*abs, name@, *at),
            Input::File(p) => InputView::File(p@),
            Input::Flag(f) => InputView::Flag(f@),
        }
    }
}

/// The Unicode whitespace characters, as `char::is_whitespace` knows them.
pub open spec fn spec_is_space(c: char) -> bool {
    c == '\u{9}' || c == '\u{a}' || c == '\u{b}' || c == '\u{c}' || c == '\u{d}' || c == ' ' || c
        == '\u{85}' || c == '\u{a0}' || c == '\u{1680}' || c == '\u{2000}' || c == '\u{2001}' || c
        == '\u{2002}' || c == '\u{2003}' || c == '\u{2004}' || c == '\u{2005}' || c == '\u{2006}'
        || c == '\u{2007}' || c == '\u{2008}' || c == '\u{2009}' || c == '\u{200a}' || c
        == '\u{2028}' || c == '\u{2029}' || c == '\u{202f}' || c == '\u{205f}' || c == '\u{3000}'
}

fn is_space(c: char) -> (r: bool)
    ensures
        r == spec_is_space(c),
{
    c == '\u{9}' || c == '\u{a}' || c == '\u{b}' || c == '\u{c}' || c == '\u{d}' || c == ' ' || c
        == '\u{85}' || c == '\u{a0}' || c == '\u{1680}' || c == '\u{2000}' || c == '\u{2001}' || c
        == '\u{2002}' || c == '\u{2003}' || c == '\u{2004}' || c == '\u{2005}' || c == '\u{2006}'
        || c == '\u{2007}' || c == '\u{2008}' || c == '\u{2009}' || c == '\u{200a}' || c
        == '\u{2028}' || c == '\u{2029}' || c == '\u{202f}' || c == '\u{205f}' || c == '\u{3000}'
}

pub open spec fn spec_is_paren(c: char) -> bool {
    c == '(' || c == ')'
}

pub open spec fn spec_tokenize_acc(s: Seq<char>, cur: Seq<char>) -> Seq<Seq<char>>
    decreases s.len(),
{
    if s.len() == 0 {
        if cur.len() == 0 {
            Seq::empty()
        } else {
            seq![cur]
        }
    } else if spec_is_space(s[0]) {
        (if cur.len() == 0 {
            Seq::<Seq<char>>::empty()
        } else {
            seq![cur]
        }) + spec_tokenize_acc(s.drop_first(), Seq::empty())
    } else if spec_is_paren(s[0]) {
        (if cur.len() == 0 {
            Seq::<Seq<char>>::empty()
        } else {
            seq![cur]
        }) + seq![seq![s[0]]] + spec_tokenize_acc(s.drop_first(), Seq::empty())
    } else {
        spec_tokenize_acc(s.drop_first(), cur.push(s[0]))
    }
}

/// The token stream of a linker script: whitespace separates tokens, and each
/// parenthesis is a token of its own, even glued to adjacent text.
pub open spec fn spec_tokenize(s: Seq<char>) -> Seq<Seq<char>> {
    spec_tokenize_acc(s, Seq::empty())
}

/// Splits a linker script into its tokens.
pub fn tokenize(s: &str) -> (r: Vec<String>)
    ensures
        r.deep_view() == spec_tokenize(s@),
{
    let n = s.unicode_len();
    let mut out: Vec<String> = Vec::new();
    let mut start: usize = 0;
    let mut i: usize = 0;
    proof {
        assert(s@.skip(0) =~= s@);
        assert(s@.subrange(0, 0) =~= Seq::<char>::empty());
        assert(out.deep_view() =~= Seq::<Seq<char>>::empty());
    }
    while i < n
        invariant
            start <= i <= n,
            n == s@.len(),
            forall|k: int| start <= k < i ==> !spec_is_space(#[trigger] s@[k]) && !spec_is_paren(
                s@[k],
            ),
            spec_tokenize(s@) == out.deep_view() + spec_tokenize_acc(
                s@.skip(i as int),
                s@.subrange(start as int, i as int),
            ),
        decreases n - i,
    {
        let ghost rest = s@.skip(i as int);
        let ghost cur = s@.subrange(start as int, i as int);
        proof {
            assert(rest[0] == s@[i as int]);
            assert(rest.drop_first() =~= s@.skip(i as int + 1));
        }
        let c = s.get_char(i);
        if is_space(c) {
            if start < i {
                let tok = s.substring_char(start, i).to_owned();
                out.push(tok);
                proof {
                    assert(out.deep_view() =~= out.deep_view().drop_last() + seq![cur]);
                }
            }
            proof {
                assert(s@.subrange(i as int + 1, i as int + 1) =~= Seq::<char>::empty());
                assert(out.deep_view() + spec_tokenize_acc(rest.drop_first(), Seq::empty())
                    =~= spec_tokenize(s@));
            }
            i = i + 1;
            start = i;
        } else if c == '(' || c == ')' {
            if start < i {
                let tok = s.substring_char(start, i).to_owned();
                out.push(tok);
                proof {
                    assert(out.deep_view() =~= out.deep_view().drop_last() + seq![cur]);
                }
            }
            let paren = s.substring_char(i, i + 1).to_owned();
            proof {
                assert(paren@ =~= seq![s@[i as int]]);
            }
            out.push(paren);
            proof {
                assert(out.deep_view() =~= out.deep_view().drop_last() + seq![seq![s@[i as int]]]);
                assert(s@.subrange(i as int + 1, i as int + 1) =~= Seq::<char>::empty());
                assert(out.deep_view() + spec_tokenize_acc(rest.drop_first(), Seq::empty())
                    =~= spec_tokenize(s@));
            }
            i = i + 1;
            start = i;
        } else {
            proof {
                assert(s@.subrange(start as int, i as int + 1) =~= cur.push(s@[i as int]));
            }
            i = i + 1;
        }
    }
    proof {
        assert(s@.skip(n as int) =~= Seq::<char>::empty());
    }
    if start < n {
        let tok = s.substring_char(start, n).to_owned();
        out.push(tok);
        proof {
            assert(out.deep_view() =~= out.deep_view().drop_last() + seq![
                s@.subrange(start as int, n as int),
            ]);
        }
    }
    proof {
        assert(spec_tokenize(s@) =~= out.deep_view());
    }
    out
}

/// The parser's stack alphabet: which directive's parentheses are open.
#[derive(Copy, Clone, Debug, Eq, PartialEq, Structural)]
pub enum ScriptFrame {
    Input,
    Group,
    OutputFormat,
    Extern,
    AsNeeded,
}

/// One step short of `spec_parse_tokens`: what a directive token at the top
/// level opens.
pub open spec fn spec_top_frame(t: Seq<char>) -> Option<ScriptFrame> {
    if t == "INPUT"@ {
        Some(ScriptFrame::Input)
    } else if t == "GROUP"@ {
        Some(ScriptFrame::Group)
    } else if t == "OUTPUT_FORMAT"@ {
        Some(ScriptFrame::OutputFormat)
    } else if t == "EXTERN"@ {
        Some(ScriptFrame::Extern)
    } else {
        None
    }
}

/// The linker-script parser over a token stream: a stack automaton with one
/// token of lookahead, collecting emitted inputs; `None` on any structural
/// violation, so the caller can fall back to treating the file as opaque.
/// Comments are recognized only at token boundaries: a token opening `/*`
/// silences everything up to a token closing `*/`.
pub open spec fn spec_parse_tokens(
    toks: Seq<Seq<char>>,
    dir: Seq<char>,
    stack: Seq<ScriptFrame>,
    comment: bool,
) -> Option<Seq<InputView>>
    decreases toks.len(),
{
    if toks.len() == 0 {
        if stack.len() == 0 {
            Some(Seq::empty())
        } else {
            None
        }
    } else {
        let t = toks[0];
        let rest = toks.drop_first();
        let in_comment = comment || text::spec_starts_with(t, "/*"@);
        if in_comment {
            spec_parse_tokens(rest, dir, stack, !text::spec_ends_with(t, "*/"@))
        } else if stack.len() == 0 {
            match spec_top_frame(t) {
                Some(frame) => if rest.len() > 0 && rest[0] == "("@ {
                    match spec_parse_tokens(toks.skip(2), dir, stack.push(frame), false) {
                        Some(tail) => if frame is Group {
                            Some(seq![InputView::Flag("--start-group"@)] + tail)
                        } else {
                            Some(tail)
                        },
                        None => None,
                    }
                } else {
                    None
                },
                None => if t == ";"@ {
                    spec_parse_tokens(rest, dir, stack, false)
                } else {
                    None
                },
            }
        } else if t == ")"@ {
            let emitted: Seq<InputView> = if stack.last() is AsNeeded {
                seq![InputView::Flag("--no-as-needed"@)]
            } else if stack.last() is Group {
                seq![InputView::Flag("--end-group"@)]
            } else {
                Seq::empty()
            };
            match spec_parse_tokens(rest, dir, stack.drop_last(), false) {
                Some(tail) => Some(emitted + tail),
                None => None,
            }
        } else if t == "AS_NEEDED"@ {
            if rest.len() > 0 && rest[0] == "("@ {
                match spec_parse_tokens(toks.skip(2), dir, stack.push(ScriptFrame::AsNeeded),
                    false) {
                    Some(tail) => Some(seq![InputView::Flag("--as-needed"@)] + tail),
                    None => None,
                }
            } else {
                None
            }
        } else if stack.last() is OutputFormat {
            spec_parse_tokens(rest, dir, stack, false)
        } else if stack.last() is Extern {
            match spec_parse_tokens(rest, dir, stack, false) {
                Some(tail) => Some(seq![InputView::Flag("--undefined="@ + t)] + tail),
                None => None,
            }
        } else if text::spec_starts_with(t, "-l"@) {
            match spec_parse_tokens(rest, dir, stack, false) {
                Some(tail) => Some(seq![InputView::Flag(t)] + tail),
                None => None,
            }
        } else {
            match spec_parse_tokens(rest, dir, stack, false) {
                Some(tail) => Some(
                    seq![
                        InputView::Library(true, text::spec_path_join(dir, t), AllowedTypes::Any),
                    ] + tail,
                ),
                None => None,
            }
        }
    }
}

/// What parsing a whole script yields, file references resolved relative to
/// `dir`.
pub open spec fn spec_parse_script(s: Seq<char>, dir: Seq<char>) -> Option<Seq<InputView>> {
    spec_parse_tokens(spec_tokenize(s), dir, Seq::empty(), false)
}

spec fn spec_glue(acc: Seq<InputView>, tail: Option<Seq<InputView>>) -> Option<Seq<InputView>> {
    match tail {
        Some(t) => Some(acc + t),
        None => None,
    }
}

/// Parses a linker script, emitting the inputs it names; `None` when the text
/// is not a well-formed script.
pub fn parse_linker_script(input: &str, dir: &str) -> (r: Option<Vec<Input>>)
    ensures
        match r {
            Some(v) => spec_parse_script(input@, dir@) == Some(v.deep_view()),
            None => spec_parse_script(input@, dir@) is None,
        },
{
    let tokens = tokenize(input);
    let ghost toks0 = tokens.deep_view();
    let ghost goal = spec_parse_tokens(toks0, dir@, Seq::empty(), false);
    let mut ret: Vec<Input> = Vec::new();
    let mut stack: Vec<ScriptFrame> = Vec::new();
    let mut comment: bool = false;
    let mut i: usize = 0;
    proof {
        assert(toks0.skip(0) =~= toks0);
        assert(ret.deep_view() =~= Seq::<InputView>::empty());
        assert(stack@ =~= Seq::<ScriptFrame>::empty());
    }
    while i < tokens.len()
        invariant
            i <= tokens@.len(),
            tokens.deep_view() == toks0,
            toks0 == spec_tokenize(input@),
            goal == spec_parse_tokens(toks0, dir@, Seq::empty(), false),
            goal == spec_glue(
                ret.deep_view(),
                spec_parse_tokens(toks0.skip(i as int), dir@, stack@, comment),
            ),
        decreases tokens@.len() - i,
    {
        let ghost rest_toks = toks0.skip(i as int);
        proof {
            assert(toks0.len() == tokens@.len());
            assert(rest_toks[0] == toks0[i as int]);
            assert(toks0[i as int] == tokens@[i as int]@);
            assert(rest_toks.drop_first() =~= toks0.skip(i as int + 1));
            if rest_toks.len() >= 2 {
                assert(rest_toks.drop_first()[0] == toks0[i as int + 1]);
                assert(toks0[i as int + 1] == tokens@[i as int + 1]@);
                assert(rest_toks.skip(2) =~= toks0.skip(i as int + 2));
            }
        }
        let in_comment = comment || text::str_starts_with(tokens[i].as_str(), "/*");
        if in_comment {
            comment = !text::str_ends_with(tokens[i].as_str(), "*/");
            i = i + 1;
            continue;
        }
        if stack.len() == 0 {
            let frame: Option<ScriptFrame> = if text::str_eq(tokens[i].as_str(), "INPUT") {
                Some(ScriptFrame::Input)
            } else if text::str_eq(tokens[i].as_str(), "GROUP") {
                Some(ScriptFrame::Group)
            } else if text::str_eq(tokens[i].as_str(), "OUTPUT_FORMAT") {
                Some(ScriptFrame::OutputFormat)
            } else if text::str_eq(tokens[i].as_str(), "EXTERN") {
                Some(ScriptFrame::Extern)
            } else {
                None
            };
            match frame {
                Some(frame) => {
                    if i + 1 < tokens.len() && text::str_eq(tokens[i + 1].as_str(), "(") {
                        if frame == ScriptFrame::Group {
                            ret.push(Input::Flag("--start-group".to_owned()));
                            proof {
                                assert(ret.deep_view() =~= ret.deep_view().drop_last() + seq![
                                    InputView::Flag("--start-group"@),
                                ]);
                            }
                        }
                        stack.push(frame);
                        i = i + 2;
                    } else {
                        proof {
                            assert(spec_parse_tokens(rest_toks, dir@, stack@, comment) is None);
                        }
                        return None;
                    }
                },
                None => {
                    if text::str_eq(tokens[i].as_str(), ";") {
                        i = i + 1;
                    } else {
                        proof {
                            assert(spec_parse_tokens(rest_toks, dir@, stack@, comment) is None);
                        }
                        return None;
                    }
                },
            }
        } else if text::str_eq(tokens[i].as_str(), ")") {
            let top = stack[stack.len() - 1];
            proof {
                assert(stack@.last() == top);
                assert(stack@.subrange(0, stack@.len() - 1) =~= stack@.drop_last());
            }
            if top == ScriptFrame::AsNeeded {
                ret.push(Input::Flag("--no-as-needed".to_owned()));
                proof {
                    assert(ret.deep_view() =~= ret.deep_view().drop_last() + seq![
                        InputView::Flag("--no-as-needed"@),
                    ]);
                }
            } else if top == ScriptFrame::Group {
                ret.push(Input::Flag("--end-group".to_owned()));
                proof {
                    assert(ret.deep_view() =~= ret.deep_view().drop_last() + seq![
                        InputView::Flag("--end-group"@),
                    ]);
                }
            }
            let _ = stack.pop();
            i = i + 1;
        } else if text::str_eq(tokens[i].as_str(), "AS_NEEDED") {
            if i + 1 < tokens.len() && text::str_eq(tokens[i + 1].as_str(), "(") {
                ret.push(Input::Flag("--as-needed".to_owned()));
                proof {
                    assert(ret.deep_view() =~= ret.deep_view().drop_last() + seq![
                        InputView::Flag("--as-needed"@),
                    ]);
                }
                stack.push(ScriptFrame::AsNeeded);
                i = i + 2;
            } else {
                proof {
                    assert(spec_parse_tokens(rest_toks, dir@, stack@, comment) is None);
                }
                return None;
            }
        } else {
            let top = stack[stack.len() - 1];
            proof {
                assert(stack@.last() == top);
            }
            if top == ScriptFrame::OutputFormat {
                i = i + 1;
            } else if top == ScriptFrame::Extern {
                let flag = text::str_concat("--undefined=", tokens[i].as_str());
                ret.push(Input::Flag(flag));
                proof {
                    assert(ret.deep_view() =~= ret.deep_view().drop_last() + seq![
                        InputView::Flag("--undefined="@ + toks0[i as int]),
                    ]);
                }
                i = i + 1;
            } else if text::str_starts_with(tokens[i].as_str(), "-l") {
                let flag = tokens[i].clone();
                ret.push(Input::Flag(flag));
                proof {
                    assert(ret.deep_view() =~= ret.deep_view().drop_last() + seq![
                        InputView::Flag(toks0[i as int]),
                    ]);
                }
                i = i + 1;
            } else {
                let file = text::path_join(dir, tokens[i].as_str());
                ret.push(Input::Library(true, file, AllowedTypes::Any));
                proof {
                    assert(ret.deep_view() =~= ret.deep_view().drop_last() + seq![
                        InputView::Library(
                            true,
                            text::spec_path_join(dir@, toks0[i as int]),
                            AllowedTypes::Any,
                        ),
                    ]);
                }
                i = i + 1;
            }
        }
    }
    proof {
        assert(toks0.skip(toks0.len() as int) =~= Seq::<Seq<char>>::empty());
    }
    if stack.len() == 0 {
        proof {
            assert(ret.deep_view() + Seq::<InputView>::empty() =~= ret.deep_view());
        }
        Some(ret)
    } else {
        None
    }
}

impl AllowedTypes {
    /// Whether a resolved file passes this filter, judged against the cache:
    /// `Bitcode` admits non-native files, `Native` native ones.
    pub open spec fn spec_check(self, c: FileTypeCache, q: Seq<char>) -> bool {
        match self {
            AllowedTypes::Any => true,
            AllowedTypes::Bitcode => !filetype::spec_is_native(c, q, None),
            AllowedTypes::Native => filetype::spec_is_native(c, q, None),
        }
    }

    pub fn check(&self, cache: &FileTypeCache, path: &String) -> (r: bool)
        ensures
            r == self.spec_check(*cache, path@),
    {
        match self {
            AllowedTypes::Any => true,
            AllowedTypes::Bitcode => !filetype::is_file_native(cache, path, None),
            AllowedTypes::Native => filetype::is_file_native(cache, path, None),
        }
    }
}

/// What parsing the script recorded for a path yields: the inputs its text
/// names, references resolved relative to the path's own directory; nothing
/// when no contents are recorded, they are not UTF-8, or they do not parse.
pub open spec fn spec_parsed_script(c: FileTypeCache, p: Seq<char>) -> Option<Seq<InputView>> {
    match c.spec_contents_of(p) {
        Some(b) => if vstd::utf8::valid_utf8(b) {
            spec_parse_script(vstd::utf8::decode_utf8(b), text::spec_path_parent(p))
        } else {
            None
        },
        None => None,
    }
}

/// Parses the linker script recorded for a path, references resolved
/// relative to the path's own directory.
pub fn parse_linker_script_file(cache: &FileTypeCache, path: &String) -> (r: Option<Vec<Input>>)
    ensures
        match r {
            Some(v) => spec_parsed_script(*cache, path@) == Some(v.deep_view()),
            None => spec_parsed_script(*cache, path@) is None,
        },
{
    let bytes = match cache.contents_ref(path.as_str()) {
        Some(b) => b,
        None => {
            return None;
        },
    };
    let textual = match filetype::bytes_to_string(bytes) {
        Some(t) => t,
        None => {
            return None;
        },
    };
    proof {
        broadcast use vstd::utf8::encode_utf8_decode_utf8;

        assert(vstd::utf8::decode_utf8(bytes@) == textual@);
    }
    let dir = text::path_parent(path.as_str());
    parse_linker_script(textual.as_str(), dir.as_str())
}

/// Whether the path both looks like a linker script to the cache and parses
/// as one, judged from recorded contents alone.
pub open spec fn spec_is_script_here(c: FileTypeCache, q: Seq<char>) -> bool {
    filetype::spec_is_linker_script(c, q, None)
}

fn is_script_here(cache: &FileTypeCache, path: &String) -> (r: bool)
    ensures
        r == spec_is_script_here(*cache, path@),
{
    filetype::is_linker_script(cache, path, None)
}

/// Whether a resolved path is taken: it must be a known file, and either a
/// linker script or admitted by the filter.
pub open spec fn spec_candidate_ok(c: FileTypeCache, full: Seq<char>, allowed: AllowedTypes)
    -> bool {
    c.spec_contents_of(full) is Some && (spec_is_script_here(c, full) || allowed.spec_check(
        c,
        full,
    ))
}

/// Where a candidate file name resolves: the first search directory in which
/// the name names a known file that is a linker script or passes the filter.
pub open spec fn spec_find_file(
    c: FileTypeCache,
    name: Seq<char>,
    search: Seq<String>,
    allowed: AllowedTypes,
) -> Option<Seq<char>>
    decreases search.len(),
{
    if search.len() == 0 {
        None
    } else {
        let full = text::spec_path_join(search[0]@, name);
        if spec_candidate_ok(c, full, allowed) {
            Some(full)
        } else {
            spec_find_file(c, name, search.drop_first(), allowed)
        }
    }
}

/// Where a symbolic `-l` name resolves: within each directory the shared form
/// `lib<name>.so` is tried first (skipped entirely under a static-only
/// policy), then the static form `lib<name>.a`; only when neither is found
/// there does the search advance to the next directory.
pub open spec fn spec_find_lib_in_dirs(
    c: FileTypeCache,
    name: Seq<char>,
    search: Seq<String>,
    static_only: bool,
    allowed: AllowedTypes,
) -> Option<Seq<char>>
    decreases search.len(),
{
    if search.len() == 0 {
        None
    } else {
        let so = text::spec_path_join(search[0]@, "lib"@ + name + ".so"@);
        let stat = text::spec_path_join(search[0]@, "lib"@ + name + ".a"@);
        if !static_only && spec_candidate_ok(c, so, allowed) {
            Some(so)
        } else if spec_candidate_ok(c, stat, allowed) {
            Some(stat)
        } else {
            spec_find_lib_in_dirs(c, name, search.drop_first(), static_only, allowed)
        }
    }
}

fn candidate_ok(cache: &FileTypeCache, full: &String, allowed: AllowedTypes) -> (r: bool)
    ensures
        r == spec_candidate_ok(*cache, full@, allowed),
{
    if !cache.file_exists(full.as_str()) {
        return false;
    }
    if is_script_here(cache, full) {
        return true;
    }
    allowed.check(cache, full)
}

pub fn find_file(cache: &FileTypeCache, name: &String, search: &Vec<String>, allowed: AllowedTypes)
    -> (r: Option<String>)
    ensures
        match r {
            Some(p) => spec_find_file(*cache, name@, search@, allowed) == Some(p@),
            None => spec_find_file(*cache, name@, search@, allowed) is None,
        },
{
    let mut i: usize = 0;
    proof {
        assert(search@.skip(0) =~= search@);
    }
    while i < search.len()
        invariant
            i <= search@.len(),
            spec_find_file(*cache, name@, search@, allowed) == spec_find_file(
                *cache,
                name@,
                search@.skip(i as int),
                allowed,
            ),
        decreases search@.len() - i,
    {
        proof {
            assert(search@.skip(i as int)[0] == search@[i as int]);
            assert(search@.skip(i as int).drop_first() =~= search@.skip(i as int + 1));
        }
        let full = text::path_join(search[i].as_str(), name.as_str());
        if candidate_ok(cache, &full, allowed) {
            return Some(full);
        }
        i = i + 1;
    }
    proof {
        assert(search@.skip(search@.len() as int) =~= Seq::<String>::empty());
    }
    None
}

fn find_lib_in_dirs(
    cache: &FileTypeCache,
    name: &String,
    search: &Vec<String>,
    static_only: bool,
    allowed: AllowedTypes,
) -> (r: Option<String>)
    ensures
        match r {
            Some(p) => spec_find_lib_in_dirs(*cache, name@, search@, static_only, allowed) == Some(
                p@,
            ),
            None => spec_find_lib_in_dirs(*cache, name@, search@, static_only, allowed) is None,
        },
{
    let so_name = lib_candidate(name, ".so");
    let a_name = lib_candidate(name, ".a");
    let mut i: usize = 0;
    proof {
        assert(search@.skip(0) =~= search@);
    }
    while i < search.len()
        invariant
            i <= search@.len(),
            so_name@ == "lib"@ + name@ + ".so"@,
            a_name@ == "lib"@ + name@ + ".a"@,
            spec_find_lib_in_dirs(*cache, name@, search@, static_only, allowed)
                == spec_find_lib_in_dirs(
                *cache,
                name@,
                search@.skip(i as int),
                static_only,
                allowed,
            ),
        decreases search@.len() - i,
    {
        proof {
            assert(search@.skip(i as int)[0] == search@[i as int]);
            assert(search@.skip(i as int).drop_first() =~= search@.skip(i as int + 1));
        }
        if !static_only {
            let so = text::path_join(search[i].as_str(), so_name.as_str());
            if candidate_ok(cache, &so, allowed) {
                return Some(so);
            }
        }
        let stat = text::path_join(search[i].as_str(), a_name.as_str());
        if candidate_ok(cache, &stat, allowed) {
            return Some(stat);
        }
        i = i + 1;
    }
    proof {
        assert(search@.skip(search@.len() as int) =~= Seq::<String>::empty());
    }
    None
}

/// Law of the per-directory search: when no earlier directory holds a usable
/// candidate and the shared form in directory `i` is usable, the shared form
/// wins there — `lib<name>.so` before `lib<name>.a`, and a directory is left
/// only when it holds neither.
pub proof fn lemma_shared_wins_in_directory(
    c: FileTypeCache,
    name: Seq<char>,
    search: Seq<String>,
    allowed: AllowedTypes,
    i: int,
)
    requires
        0 <= i < search.len(),
        forall|j: int| 0 <= j < i ==> !spec_candidate_ok(
            c,
            text::spec_path_join(#[trigger] search[j]@, "lib"@ + name + ".so"@),
            allowed,
        ) && !spec_candidate_ok(
            c,
            text::spec_path_join(search[j]@, "lib"@ + name + ".a"@),
            allowed,
        ),
        spec_candidate_ok(c, text::spec_path_join(search[i]@, "lib"@ + name + ".so"@), allowed),
    ensures
        spec_find_lib_in_dirs(c, name, search, false, allowed) == Some(
            text::spec_path_join(search[i]@, "lib"@ + name + ".so"@),
        ),
    decreases i,
{
    if i > 0 {
        assert(forall|j: int|
            0 <= j < i - 1 ==> search.drop_first()[j] == search[j + 1]
                && !spec_candidate_ok(
                c,
                text::spec_path_join(#[trigger] search.drop_first()[j]@, "lib"@ + name + ".so"@),
                allowed,
            ) && !spec_candidate_ok(
                c,
                text::spec_path_join(search.drop_first()[j]@, "lib"@ + name + ".a"@),
                allowed,
            ));
        assert(search.drop_first()[i - 1] == search[i as int]);
        lemma_shared_wins_in_directory(c, name, search.drop_first(), allowed, i - 1);
    }
}

/// Law of the static-only policy: the shared form is skipped entirely, so
/// the static form of the first directory holding a usable one is taken.
pub proof fn lemma_static_only_takes_static(
    c: FileTypeCache,
    name: Seq<char>,
    search: Seq<String>,
    allowed: AllowedTypes,
    i: int,
)
    requires
        0 <= i < search.len(),
        forall|j: int| 0 <= j < i ==> !spec_candidate_ok(
            c,
            text::spec_path_join(#[trigger] search[j]@, "lib"@ + name + ".a"@),
            allowed,
        ),
        spec_candidate_ok(c, text::spec_path_join(search[i]@, "lib"@ + name + ".a"@), allowed),
    ensures
        spec_find_lib_in_dirs(c, name, search, true, allowed) == Some(
            text::spec_path_join(search[i]@, "lib"@ + name + ".a"@),
        ),
    decreases i,
{
    if i > 0 {
        assert(forall|j: int|
            0 <= j < i - 1 ==> search.drop_first()[j] == search[j + 1] && !spec_candidate_ok(
                c,
                text::spec_path_join(#[trigger] search.drop_first()[j]@, "lib"@ + name + ".a"@),
                allowed,
            ));
        assert(search.drop_first()[i - 1] == search[i as int]);
        lemma_static_only_takes_static(c, name, search.drop_first(), allowed, i - 1);
    }
}

/// The chain of candidates a library reference is resolved through: for an
/// exact name the name itself, then the private-implementation stand-in for
/// the IRT shim; for a symbolic name the per-directory shared-then-static
/// search, then the private pthread stand-in.
pub open spec fn spec_resolve_library(
    c: FileTypeCache,
    absolute: bool,
    name: Seq<char>,
    search: Seq<String>,
    static_only: bool,
    allowed: AllowedTypes,
) -> Option<Seq<char>> {
    if absolute {
        match spec_find_file(c, name, search, allowed) {
            Some(p) => Some(p),
            None => if name == "libpnacl_irt_shim.a"@ {
                spec_find_file(c, "libpnacl_irt_shim_dummy.a"@, search, allowed)
            } else if name == "pthread"@ {
                spec_find_lib_in_dirs(c, "pthread_private"@, search, false, allowed)
            } else {
                None
            },
        }
    } else {
        match spec_find_lib_in_dirs(c, name, search, static_only, allowed) {
            Some(p) => Some(p),
            None => if name == "pthread"@ {
                spec_find_lib_in_dirs(c, "pthread_private"@, search, false, allowed)
            } else {
                None
            },
        }
    }
}

fn lib_candidate(name: &String, suffix: &str) -> (r: String)
    ensures
        r@ == "lib"@ + name@ + suffix@,
{
    let mut out = "lib".to_owned();
    out.append(name.as_str());
    out.append(suffix);
    proof {
        assert(out@ =~= "lib"@ + name@ + suffix@);
    }
    out
}

fn resolve_library(
    cache: &FileTypeCache,
    absolute: bool,
    name: &String,
    search: &Vec<String>,
    static_only: bool,
    allowed: AllowedTypes,
) -> (r: Option<String>)
    ensures
        match r {
            Some(p) => spec_resolve_library(*cache, absolute, name@, search@, static_only, allowed)
                == Some(p@),
            None => spec_resolve_library(
                *cache,
                absolute,
                name@,
                search@,
                static_only,
                allowed,
            ) is None,
        },
{
    if absolute {
        match find_file(cache, name, search, allowed) {
            Some(p) => Some(p),
            None => {
                if text::str_eq(name.as_str(), "libpnacl_irt_shim.a") {
                    let dummy = "libpnacl_irt_shim_dummy.a".to_owned();
                    find_file(cache, &dummy, search, allowed)
                } else if text::str_eq(name.as_str(), "pthread") {
                    let private = "pthread_private".to_owned();
                    find_lib_in_dirs(cache, &private, search, false, allowed)
                } else {
                    None
                }
            },
        }
    } else {
        match find_lib_in_dirs(cache, name, search, static_only, allowed) {
            Some(p) => Some(p),
            None => {
                if text::str_eq(name.as_str(), "pthread") {
                    let private = "pthread_private".to_owned();
                    find_lib_in_dirs(cache, &private, search, false, allowed)
                } else {
                    None
                }
            },
        }
    }
}

/// The error a reference that resolves nowhere is reported with.
pub open spec fn spec_not_found_msg(absolute: bool, name: Seq<char>) -> Seq<char> {
    "`"@ + (if absolute {
        ":"@
    } else {
        Seq::<char>::empty()
    }) + name + "` not found"@
}

fn not_found_error(absolute: bool, name: &String) -> (r: String)
    ensures
        r@ == spec_not_found_msg(absolute, name@),
{
    let mut out = "`".to_owned();
    if absolute {
        out.append(":");
    }
    out.append(name.as_str());
    out.append("` not found");
    proof {
        if absolute {
            assert(out@ =~= spec_not_found_msg(absolute, name@));
        } else {
            assert(out@ =~= spec_not_found_msg(absolute, name@));
        }
    }
    out
}

/// The type tag a resolved library is re-labelled with, so downstream
/// consumers can bucket inputs without re-sniffing.
pub open spec fn spec_native_tag(c: FileTypeCache, q: Seq<char>) -> AllowedTypes {
    if !filetype::spec_is_native(c, q, None) {
        AllowedTypes::Bitcode
    } else {
        AllowedTypes::Native
    }
}

fn native_tag(cache: &FileTypeCache, path: &String) -> (r: AllowedTypes)
    ensures
        r == spec_native_tag(*cache, path@),
{
    if !filetype::is_file_native(cache, path, None) {
        AllowedTypes::Bitcode
    } else {
        AllowedTypes::Native
    }
}

/// How deep a chain of linker scripts the resolver is willing to follow
/// before giving up.
pub const SCRIPT_EXPANSION_LIMIT: usize = 1000000;

/// The resolver's full behavior over a depth-first worklist of inputs:
/// flags pass through; a library reference resolves (or the not-found error
/// ends the run); a resolved file or plain file that is a linker script is
/// replaced in place by its parsed entries; anything resolved and not a
/// script is emitted re-tagged with its detected type. Each processed item
/// burns one unit of fuel, so a cycle of scripts ends in an error.
pub open spec fn spec_expand_queue(
    c: FileTypeCache,
    items: Seq<InputView>,
    search: Seq<String>,
    static_only: bool,
    fuel: nat,
) -> Result<Seq<InputView>, Seq<char>>
    decreases fuel,
{
    if items.len() == 0 {
        Ok(Seq::empty())
    } else if fuel == 0 {
        Err("linker scripts nested too deeply"@)
    } else {
        let rest = items.drop_first();
        match items[0] {
            InputView::Flag(f) => match spec_expand_queue(
                c,
                rest,
                search,
                static_only,
                (fuel - 1) as nat,
            ) {
                Ok(tail) => Ok(seq![InputView::Flag(f)] + tail),
                Err(e) => Err(e),
            },
            InputView::Library(abs, name, allowed) => {
                match spec_resolve_library(c, abs, name, search, static_only, allowed) {
                    None => Err(spec_not_found_msg(abs, name)),
                    Some(p) => if spec_is_script_here(c, p) && spec_parsed_script(c, p) is Some {
                        spec_expand_queue(
                            c,
                            spec_parsed_script(c, p).unwrap() + rest,
                            search,
                            static_only,
                            (fuel - 1) as nat,
                        )
                    } else {
                        match spec_expand_queue(c, rest, search, static_only, (fuel - 1) as nat) {
                            Ok(tail) => Ok(
                                seq![InputView::Library(true, p, spec_native_tag(c, p))] + tail,
                            ),
                            Err(e) => Err(e),
                        }
                    },
                }
            },
            InputView::File(p) => if spec_is_script_here(c, p) && spec_parsed_script(c, p)
                is Some {
                spec_expand_queue(
                    c,
                    spec_parsed_script(c, p).unwrap() + rest,
                    search,
                    static_only,
                    (fuel - 1) as nat,
                )
            } else {
                match spec_expand_queue(c, rest, search, static_only, (fuel - 1) as nat) {
                    Ok(tail) => Ok(seq![InputView::File(p)] + tail),
                    Err(e) => Err(e),
                }
            },
        }
    }
}

pub open spec fn spec_glue_expansion(
    acc: Seq<InputView>,
    tail: Result<Seq<InputView>, Seq<char>>,
) -> Result<Seq<InputView>, Seq<char>> {
    match tail {
        Ok(t) => Ok(acc + t),
        Err(e) => Err(e),
    }
}

/// Expands a worklist of inputs depth-first, appending what `spec_expand_queue`
/// yields for the pending stack (top of the stack first) to `out`; `steps`
/// bounds the total work so that a cycle of linker scripts ends in an error
/// rather than an endless walk.
fn expand_list(
    cache: &FileTypeCache,
    pending: &mut Vec<Input>,
    out: &mut Vec<Input>,
    search: &Vec<String>,
    static_only: bool,
    steps: usize,
) -> (r: Result<(), String>)
    ensures
        (match r {
            Ok(()) => spec_expand_queue(
                *cache,
                old(pending).deep_view().reverse(),
                search@,
                static_only,
                steps as nat,
            ) matches Ok(tail) && final(out).deep_view() == old(out).deep_view() + tail,
            Err(e) => spec_expand_queue(
                *cache,
                old(pending).deep_view().reverse(),
                search@,
                static_only,
                steps as nat,
            ) == Result::<Seq<InputView>, Seq<char>>::Err(e@),
        }),
{
    let ghost goal = spec_expand_queue(
        *cache,
        pending.deep_view().reverse(),
        search@,
        static_only,
        steps as nat,
    );
    let ghost out0 = out.deep_view();
    let ghost mut acc: Seq<InputView> = Seq::empty();
    let mut fuel = steps;
    proof {
        assert(out0 + acc =~= out0);
    }
    loop
        invariant
            fuel <= steps,
            out.deep_view() == out0 + acc,
            goal == spec_expand_queue(
                *cache,
                old(pending).deep_view().reverse(),
                search@,
                static_only,
                steps as nat,
            ),
            out0 == old(out).deep_view(),
            goal == spec_glue_expansion(
                acc,
                spec_expand_queue(
                    *cache,
                    pending.deep_view().reverse(),
                    search@,
                    static_only,
                    fuel as nat,
                ),
            ),
        decreases fuel,
    {
        let ghost rev = pending.deep_view().reverse();
        let input = match pending.pop() {
            None => {
                proof {
                    assert(rev =~= Seq::<InputView>::empty());
                    assert(goal == spec_glue_expansion(
                        acc,
                        Result::<Seq<InputView>, Seq<char>>::Ok(Seq::empty()),
                    ));
                    assert(acc + Seq::<InputView>::empty() =~= acc);
                }
                return Ok(());
            },
            Some(input) => input,
        };
        let ghost rest = rev.drop_first();
        proof {
            assert(pending.deep_view() =~= rev.drop_first().reverse());
            assert(pending.deep_view().reverse() =~= rest);
            assert(rev[0] == input.deep_view());
        }
        if fuel == 0 {
            let msg = "linker scripts nested too deeply".to_owned();
            proof {
                assert(goal == Result::<Seq<InputView>, Seq<char>>::Err(msg@));
            }
            return Err(msg);
        }
        fuel = fuel - 1;
        match input {
            Input::Flag(f) => {
                out.push(Input::Flag(f));
                proof {
                    assert(out.deep_view() =~= (out0 + acc).push(InputView::Flag(f@)));
                    assert((out0 + acc).push(InputView::Flag(f@)) =~= out0 + acc.push(
                        InputView::Flag(f@),
                    ));
                    assert forall|t: Seq<InputView>|
                        true implies acc + (seq![InputView::Flag(f@)] + t) =~= acc.push(
                        InputView::Flag(f@),
                    ) + t by {}
                    acc = acc.push(InputView::Flag(f@));
                }
            },
            Input::Library(absolute, name, allowed) => {
                match resolve_library(cache, absolute, &name, search, static_only, allowed) {
                    None => {
                        let msg = not_found_error(absolute, &name);
                        proof {
                            assert(goal == Result::<Seq<InputView>, Seq<char>>::Err(msg@));
                        }
                        return Err(msg);
                    },
                    Some(p) => {
                        if is_script_here(cache, &p) {
                            match parse_linker_script_file(cache, &p) {
                                Some(expanded) => {
                                    let ghost entries = expanded.deep_view();
                                    let mut expanded = expanded;
                                    proof {
                                        assert(expanded.deep_view() + pending.deep_view().reverse()
                                            =~= entries + rest);
                                    }
                                    loop
                                        invariant
                                            expanded.deep_view() + pending.deep_view().reverse()
                                                =~= entries + rest,
                                        ensures
                                            expanded.deep_view().len() == 0,
                                            expanded.deep_view() + pending.deep_view().reverse()
                                                =~= entries + rest,
                                        decreases expanded@.len(),
                                    {
                                        let ghost exp0 = expanded.deep_view();
                                        let ghost pen0 = pending.deep_view();
                                        match expanded.pop() {
                                            Some(item) => {
                                                proof {
                                                    assert(expanded.deep_view()
                                                        =~= exp0.drop_last());
                                                    assert(exp0.last() == item.deep_view());
                                                }
                                                pending.push(item);
                                                proof {
                                                    assert(pending.deep_view() =~= pen0.push(
                                                        item.deep_view(),
                                                    ));
                                                    assert(pending.deep_view().reverse() =~= seq![
                                                        item.deep_view(),
                                                    ] + pen0.reverse());
                                                    assert(exp0.drop_last()
                                                        + (seq![exp0.last()] + pen0.reverse())
                                                        =~= exp0 + pen0.reverse());
                                                }
                                            },
                                            None => {
                                                break;
                                            },
                                        }
                                    }
                                    proof {
                                        assert(Seq::<InputView>::empty()
                                            + pending.deep_view().reverse()
                                            =~= pending.deep_view().reverse());
                                        assert(pending.deep_view().reverse() =~= entries + rest);
                                    }
                                },
                                None => {
                                    let tag = native_tag(cache, &p);
                                    out.push(Input::Library(true, p, tag));
                                    proof {
                                        let item = out.deep_view().last();
                                        assert(out.deep_view() =~= (out0 + acc).push(item));
                                        assert((out0 + acc).push(item) =~= out0 + acc.push(item));
                                        assert forall|t: Seq<InputView>|
                                            true implies acc + (seq![item] + t) =~= acc.push(item)
                                            + t by {}
                                        acc = acc.push(item);
                                    }
                                },
                            }
                        } else {
                            let tag = native_tag(cache, &p);
                            out.push(Input::Library(true, p, tag));
                            proof {
                                let item = out.deep_view().last();
                                assert(out.deep_view() =~= (out0 + acc).push(item));
                                assert((out0 + acc).push(item) =~= out0 + acc.push(item));
                                assert forall|t: Seq<InputView>|
                                    true implies acc + (seq![item] + t) =~= acc.push(item) + t by {}
                                acc = acc.push(item);
                            }
                        }
                    },
                }
            },
            Input::File(p) => {
                if is_script_here(cache, &p) {
                    match parse_linker_script_file(cache, &p) {
                        Some(expanded) => {
                            let ghost entries = expanded.deep_view();
                            let mut expanded = expanded;
                            proof {
                                assert(expanded.deep_view() + pending.deep_view().reverse()
                                    =~= entries + rest);
                            }
                            loop
                                invariant
                                    expanded.deep_view() + pending.deep_view().reverse() =~= entries
                                        + rest,
                                ensures
                                    expanded.deep_view().len() == 0,
                                    expanded.deep_view() + pending.deep_view().reverse() =~= entries
                                        + rest,
                                decreases expanded@.len(),
                            {
                                let ghost exp0 = expanded.deep_view();
                                let ghost pen0 = pending.deep_view();
                                match expanded.pop() {
                                    Some(item) => {
                                        proof {
                                            assert(expanded.deep_view() =~= exp0.drop_last());
                                            assert(exp0.last() == item.deep_view());
                                        }
                                        pending.push(item);
                                        proof {
                                            assert(pending.deep_view() =~= pen0.push(
                                                item.deep_view(),
                                            ));
                                            assert(pending.deep_view().reverse() =~= seq![
                                                item.deep_view(),
                                            ] + pen0.reverse());
                                            assert(exp0.drop_last() + (seq![exp0.last()]
                                                + pen0.reverse()) =~= exp0 + pen0.reverse());
                                        }
                                    },
                                    None => {
                                        break;
                                    },
                                }
                            }
                            proof {
                                assert(Seq::<InputView>::empty() + pending.deep_view().reverse()
                                    =~= pending.deep_view().reverse());
                                assert(pending.deep_view().reverse() =~= entries + rest);
                            }
                        },
                        None => {
                            out.push(Input::File(p));
                            proof {
                                let item = out.deep_view().last();
                                assert(out.deep_view() =~= (out0 + acc).push(item));
                                assert((out0 + acc).push(item) =~= out0 + acc.push(item));
                                assert forall|t: Seq<InputView>|
                                    true implies acc + (seq![item] + t) =~= acc.push(item) + t by {}
                                acc = acc.push(item);
                            }
                        },
                    }
                } else {
                    out.push(Input::File(p));
                    proof {
                        let item = out.deep_view().last();
                        assert(out.deep_view() =~= (out0 + acc).push(item));
                        assert((out0 + acc).push(item) =~= out0 + acc.push(item));
                        assert forall|t: Seq<InputView>|
                            true implies acc + (seq![item] + t) =~= acc.push(item) + t by {}
                        acc = acc.push(item);
                    }
                }
            },
        }
    }
}

/// Resolves one linker input against the search paths: flags pass through
/// unchanged; a library reference is searched for (shared before static
/// within each directory, unless static-only), re-tagged with its detected
/// type, and a reference that resolves nowhere is a hard error naming it; a
/// file or resolved library that is itself a linker script is replaced by
/// the recursive expansion of its parsed contents, `spec_expand_queue`
/// saying exactly what comes out. The cache stands in for the filesystem: a
/// path exists when contents are recorded for it.
pub fn expand_input(
    cache: &FileTypeCache,
    input: Input,
    search: &Vec<String>,
    static_only: bool,
) -> (r: Result<Vec<Input>, String>)
    ensures
        (match r {
            Ok(v) => spec_expand_queue(
                *cache,
                seq![input.deep_view()],
                search@,
                static_only,
                SCRIPT_EXPANSION_LIMIT as nat,
            ) == Result::<Seq<InputView>, Seq<char>>::Ok(v.deep_view()),
            Err(e) => spec_expand_queue(
                *cache,
                seq![input.deep_view()],
                search@,
                static_only,
                SCRIPT_EXPANSION_LIMIT as nat,
            ) == Result::<Seq<InputView>, Seq<char>>::Err(e@),
        }),
        (match input {
            Input::Flag(f) => r matches Ok(v) && v.deep_view() == seq![InputView::Flag(f@)],
            _ => true,
        }),
        (match input {
            Input::Library(abs, name, allowed) => {
                match spec_resolve_library(*cache, abs, name@, search@, static_only, allowed) {
                    None => r matches Err(e) && e@ == spec_not_found_msg(abs, name@),
                    Some(p) => !spec_is_script_here(*cache, p) ==> (r matches Ok(v)
                        && v.deep_view() == seq![
                        InputView::Library(true, p, spec_native_tag(*cache, p)),
                    ]),
                }
            },
            _ => true,
        }),
        (match input {
            Input::File(p) => !spec_is_script_here(*cache, p@) ==> (r matches Ok(v)
                && v.deep_view() == seq![InputView::File(p@)]),
            _ => true,
        }),
{
    let ghost goal = spec_expand_queue(
        *cache,
        seq![input.deep_view()],
        search@,
        static_only,
        SCRIPT_EXPANSION_LIMIT as nat,
    );
    proof {
        assert(seq![input.deep_view()].drop_first() =~= Seq::<InputView>::empty());
        assert(spec_expand_queue(
            *cache,
            Seq::<InputView>::empty(),
            search@,
            static_only,
            (SCRIPT_EXPANSION_LIMIT as nat - 1) as nat,
        ) == Result::<Seq<InputView>, Seq<char>>::Ok(Seq::<InputView>::empty()));
        assert forall|v: InputView|
            true implies seq![v] + Seq::<InputView>::empty() =~= seq![v] by {}
        assert(match input.deep_view() {
            InputView::Flag(f) => goal == Result::<Seq<InputView>, Seq<char>>::Ok(
                seq![InputView::Flag(f)],
            ),
            InputView::Library(abs, name, allowed) => (match spec_resolve_library(
                *cache,
                abs,
                name,
                search@,
                static_only,
                allowed,
            ) {
                None => goal == Result::<Seq<InputView>, Seq<char>>::Err(
                    spec_not_found_msg(abs, name),
                ),
                Some(p) => !(spec_is_script_here(*cache, p) && spec_parsed_script(*cache, p)
                    is Some) ==> goal == Result::<Seq<InputView>, Seq<char>>::Ok(
                    seq![InputView::Library(true, p, spec_native_tag(*cache, p))],
                ),
            }),
            InputView::File(p) => !(spec_is_script_here(*cache, p) && spec_parsed_script(
                *cache,
                p,
            ) is Some) ==> goal == Result::<Seq<InputView>, Seq<char>>::Ok(
                seq![InputView::File(p)],
            ),
        });
    }
    let mut pending: Vec<Input> = Vec::new();
    pending.push(input);
    proof {
        assert(pending.deep_view() =~= seq![input.deep_view()]);
        assert(pending.deep_view().reverse() =~= seq![input.deep_view()]);
    }
    let mut out: Vec<Input> = Vec::new();
    proof {
        assert(out.deep_view() =~= Seq::<InputView>::empty());
    }
    match expand_list(cache, &mut pending, &mut out, search, static_only, SCRIPT_EXPANSION_LIMIT) {
        Ok(()) => {
            proof {
                assert(goal matches Ok(tail) && Seq::<InputView>::empty() + tail =~= tail);
            }
            Ok(out)
        },
        Err(e) => Err(e),
    }
}

} // verus!
