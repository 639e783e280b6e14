//! The line-oriented parser: a two-state machine over raw text lines that
//! recognizes headings and fenced code regions and incrementally builds the
//! document tree, reporting structural errors with 1-based line numbers.

use vstd::prelude::*;

use crate::code_doc::lemma_ascend_props;
use crate::code_doc::lemma_ascend_step;
use crate::code_doc::lemma_chain_consec_push;
use crate::code_doc::CodeBlock;
use crate::code_doc::CodeDoc;
use crate::code_doc::SpecCodeBlock;
use crate::code_doc::SpecDoc;
use crate::code_doc::SpecDocNode;
use crate::code_doc::DOC_NODE_ROOT_ID;
use crate::strutil::join_lines;
use crate::strutil::join_nl;

verus! {

/// A structural parse failure, carrying the 1-based number and the text of
/// the offending line (for an unclosed block: of the fence-open line).
#[derive(PartialEq, Clone, Debug)]
pub enum DocParseError {
    BlockNotClosed { linum: usize, line: String },
    UnexpectedLevel { linum: usize, line: String },
    UnexpectedLine { linum: usize, line: String },
}

/// Model of a parse failure.
#[verifier::ext_equal]
pub ghost enum SpecParseError {
    BlockNotClosed { linum: int, line: Seq<char> },
    UnexpectedLevel { linum: int, line: Seq<char> },
    UnexpectedLine { linum: int, line: Seq<char> },
}

impl View for DocParseError {
    type V = SpecParseError;

    open spec fn view(&self) -> SpecParseError {
        match self {
            DocParseError::BlockNotClosed { linum, line } => SpecParseError::BlockNotClosed {
                linum: *linum as int,
                line: line@,
            },
            DocParseError::UnexpectedLevel { linum, line } => SpecParseError::UnexpectedLevel {
                linum: *linum as int,
                line: line@,
            },
            DocParseError::UnexpectedLine { linum, line } => SpecParseError::UnexpectedLine {
                linum: *linum as int,
                line: line@,
            },
        }
    }
}

/// The parser's whole state between two lines: the machine state, the tree
/// built so far, the open node under construction, and the open fenced
/// block, if any.
#[verifier::ext_equal]
pub ghost struct ParseState {
    /// Whether the machine is inside a fenced region.
    pub in_block: bool,
    /// The tree built so far.
    pub doc: SpecDoc,
    /// The cursor: the node the open node will be inserted under.
    pub parent: int,
    /// The open node's level.
    pub cur_level: int,
    /// The open node's name.
    pub cur_name: Seq<char>,
    /// The open node's accumulated code blocks.
    pub cur_blocks: Seq<SpecCodeBlock>,
    /// The interpreter tag of the open fenced block.
    pub block_interp: Seq<char>,
    /// The lines accumulated inside the open fenced block.
    pub block_lines: Seq<Seq<char>>,
    /// The 1-based number of the fence-open line.
    pub open_linum: int,
    /// The text of the fence-open line.
    pub open_line: Seq<char>,
}

/// The state before any line is read: an empty tree, the cursor at the
/// root, and the document title open as a level-0 node.
pub open spec fn init_state(docname: Seq<char>) -> ParseState {
    ParseState {
        in_block: false,
        doc: SpecDoc::root_only(),
        parent: 0,
        cur_level: 0,
        cur_name: docname,
        cur_blocks: Seq::empty(),
        block_interp: Seq::empty(),
        block_lines: Seq::empty(),
        open_linum: 0,
        open_line: Seq::empty(),
    }
}

/// One step of the machine on `line` (1-based number `linum`). Inside a
/// fenced region, a close marker emits the accumulated block and any other
/// line is collected verbatim. Outside, a fence-open starts a region
/// (tagged with the captured language or `default_tag`), a heading closes
/// the open node into the tree and moves the cursor — failing if the
/// heading deepens by more than one level — a stray close marker fails,
/// and anything else is inert prose.
pub open spec fn parse_step(
    st: ParseState,
    line: Seq<char>,
    linum: int,
    default_tag: Seq<char>,
) -> Result<ParseState, SpecParseError> {
    if st.in_block {
        if spec_is_fence_close(line) {
            Ok(
                ParseState {
                    in_block: false,
                    cur_blocks: st.cur_blocks.push(
                        SpecCodeBlock {
                            interpreter: st.block_interp,
                            code: join_nl(st.block_lines),
                        },
                    ),
                    ..st
                },
            )
        } else {
            Ok(ParseState { block_lines: st.block_lines.push(line), ..st })
        }
    } else if spec_is_fence_open(line) {
        Ok(
            ParseState {
                in_block: true,
                block_interp: match spec_fence_tag(line) {
                    Option::Some(t) => t,
                    Option::None => default_tag,
                },
                block_lines: Seq::empty(),
                open_linum: linum,
                open_line: line,
                ..st
            },
        )
    } else if spec_is_heading(line) {
        let new_level = spec_heading_level(line);
        let id = st.doc.nodes.len() as int;
        let doc1 = st.doc.push_node(
            st.parent,
            SpecDocNode { name: st.cur_name, level: st.cur_level, code_blocks: st.cur_blocks },
        );
        if new_level <= st.cur_level + 1 {
            Ok(
                ParseState {
                    doc: doc1,
                    parent: doc1.ascend(id, st.cur_level - new_level + 1),
                    cur_level: new_level,
                    cur_name: spec_heading_title(line),
                    cur_blocks: Seq::empty(),
                    ..st
                },
            )
        } else {
            Err(SpecParseError::UnexpectedLevel { linum, line })
        }
    } else if spec_is_fence_close(line) {
        Err(SpecParseError::UnexpectedLine { linum, line })
    } else {
        Ok(st)
    }
}

/// The machine run over `lines[i..]`, starting from `st`.
pub open spec fn parse_from(
    lines: Seq<Seq<char>>,
    i: int,
    st: ParseState,
    default_tag: Seq<char>,
) -> Result<ParseState, SpecParseError>
    decreases lines.len() - i,
{
    if i < 0 || i >= lines.len() {
        Ok(st)
    } else {
        match parse_step(st, lines[i], i + 1, default_tag) {
            Ok(st2) => parse_from(lines, i + 1, st2, default_tag),
            Err(e) => Err(e),
        }
    }
}

/// The whole parse: run the machine over every line; end-of-input inside a
/// fenced region is an unclosed-block failure reported at the fence-open
/// line, and otherwise the still-open node is flushed under the cursor.
pub open spec fn parse_spec(
    lines: Seq<Seq<char>>,
    docname: Seq<char>,
    default_tag: Seq<char>,
) -> Result<SpecDoc, SpecParseError> {
    match parse_from(lines, 0, init_state(docname), default_tag) {
        Err(e) => Err(e),
        Ok(st) => {
            if st.in_block {
                Err(SpecParseError::BlockNotClosed { linum: st.open_linum, line: st.open_line })
            } else {
                Ok(
                    st.doc.push_node(
                        st.parent,
                        SpecDocNode {
                            name: st.cur_name,
                            level: st.cur_level,
                            code_blocks: st.cur_blocks,
                        },
                    ),
                )
            }
        },
    }
}

/// The parser's running invariant: a well-formed tree, the cursor inside
/// it exactly one level above the open node, and a consecutive-levels
/// cursor chain.
pub open spec fn st_inv(st: ParseState) -> bool {
    &&& st.doc.wf()
    &&& 0 <= st.parent < st.doc.nodes.len()
    &&& st.doc.nodes[st.parent].level == st.cur_level - 1
    &&& st.cur_level >= 0
    &&& st.doc.chain_consec(st.parent)
}

/// The fence-open marker; matched case-insensitively at the start of a line.
pub open spec fn fence_open_marker() -> Seq<char> {
    "#+BEGIN_SRC"@
}

/// The fence-close marker; matched case-insensitively at the start of a line.
pub open spec fn fence_close_marker() -> Seq<char> {
    "#+END_SRC"@
}

/// Whitespace, as accepted between the fence marker and the language tag.
pub open spec fn spec_is_ws(c: char) -> bool {
    c == ' ' || c == '\t' || c == '\n' || c == '\u{b}' || c == '\u{c}' || c == '\r'
}

/// ASCII word characters; a language tag is a maximal run of these.
pub open spec fn spec_is_word(c: char) -> bool {
    ||| 'a' as int <= c as int <= 'z' as int
    ||| 'A' as int <= c as int <= 'Z' as int
    ||| '0' as int <= c as int <= '9' as int
    ||| c == '_'
}

/// The code point of `c` with ASCII lower-case letters folded to upper case.
pub open spec fn spec_upper(c: char) -> int {
    if 'a' as int <= c as int <= 'z' as int {
        c as int - 32
    } else {
        c as int
    }
}

/// Case-insensitive character equality (ASCII folding).
pub open spec fn spec_eq_ci(a: char, b: char) -> bool {
    spec_upper(a) == spec_upper(b)
}

/// `line` starts with `m`, compared case-insensitively.
pub open spec fn spec_prefix_ci(line: Seq<char>, m: Seq<char>) -> bool {
    line.len() >= m.len() && forall|i: int| 0 <= i < m.len() ==> spec_eq_ci(line[i], m[i])
}

/// A fence-open line: the open marker, in any case, at the start.
pub open spec fn spec_is_fence_open(line: Seq<char>) -> bool {
    spec_prefix_ci(line, fence_open_marker())
}

/// A fence-close line: the close marker, in any case, at the start.
pub open spec fn spec_is_fence_close(line: Seq<char>) -> bool {
    spec_prefix_ci(line, fence_close_marker())
}

/// The index of the first non-whitespace character at or after `i`.
pub open spec fn skip_ws(line: Seq<char>, i: int) -> int
    decreases line.len() - i,
{
    if 0 <= i < line.len() && spec_is_ws(line[i]) {
        skip_ws(line, i + 1)
    } else {
        i
    }
}

/// The index of the first non-word character at or after `i`.
pub open spec fn word_end(line: Seq<char>, i: int) -> int
    decreases line.len() - i,
{
    if 0 <= i < line.len() && spec_is_word(line[i]) {
        word_end(line, i + 1)
    } else {
        i
    }
}

/// The language tag of a fence-open line: the first word after the marker,
/// if whitespace and then a word follow it; otherwise none, and the
/// parse-time default applies. Trailing decoration is ignored.
pub open spec fn spec_fence_tag(line: Seq<char>) -> Option<Seq<char>> {
    let n = fence_open_marker().len() as int;
    if n < line.len() && spec_is_ws(line[n]) {
        let j = skip_ws(line, n);
        let k = word_end(line, j);
        if j < line.len() && k > j {
            Some(line.subrange(j, k))
        } else {
            None
        }
    } else {
        None
    }
}

/// The index of the first non-`'*'` character at or after `i`.
pub open spec fn star_end(line: Seq<char>, i: int) -> int
    decreases line.len() - i,
{
    if 0 <= i < line.len() && line[i] == '*' {
        star_end(line, i + 1)
    } else {
        i
    }
}

/// A heading line: one or more nesting markers at the start, a space, then
/// non-empty title text.
pub open spec fn spec_is_heading(line: Seq<char>) -> bool {
    &&& line.len() > 0
    &&& line[0] == '*'
    &&& star_end(line, 0) < line.len()
    &&& line[star_end(line, 0)] == ' '
    &&& star_end(line, 0) + 1 < line.len()
}

/// The heading depth: the number of leading nesting markers.
pub open spec fn spec_heading_level(line: Seq<char>) -> int {
    star_end(line, 0)
}

/// The heading title: everything after the space that ends the markers.
pub open spec fn spec_heading_title(line: Seq<char>) -> Seq<char> {
    line.subrange(star_end(line, 0) + 1, line.len() as int)
}

/// `i <= star_end(line, i) <= line.len()`, and only stars lie in between.
pub proof fn lemma_star_end_bounds(line: Seq<char>, i: int)
    requires
        0 <= i <= line.len(),
    ensures
        i <= star_end(line, i) <= line.len(),
    decreases line.len() - i,
{
    if i < line.len() && line[i] == '*' {
        lemma_star_end_bounds(line, i + 1);
    }
}

/// The model state that the executable parser's locals stand for.
pub open spec fn mk_st(
    in_block: bool,
    doc: SpecDoc,
    parent: int,
    cur_level: int,
    cur_name: Seq<char>,
    cur_blocks: Seq<SpecCodeBlock>,
    block_interp: Seq<char>,
    block_lines: Seq<Seq<char>>,
    open_linum: int,
    open_line: Seq<char>,
) -> ParseState {
    ParseState {
        in_block,
        doc,
        parent,
        cur_level,
        cur_name,
        cur_blocks,
        block_interp,
        block_lines,
        open_linum,
        open_line,
    }
}

/// The folded code point, as `spec_upper` describes.
fn upper_code(c: char) -> (r: u32)
    ensures
        r as int == spec_upper(c),
{
    let x = c as u32;
    if x >= 97 && x <= 122 {
        x - 32
    } else {
        x
    }
}

/// Case-insensitive prefix test, as `spec_prefix_ci` describes.
fn is_prefix_ci(line: &str, marker: &str) -> (b: bool)
    ensures
        b == spec_prefix_ci(line@, marker@),
{
    let ll = line.unicode_len();
    let ml = marker.unicode_len();
    if ll < ml {
        return false;
    }
    let mut i: usize = 0;
    while i < ml
        invariant
            ll == line@.len(),
            ml == marker@.len(),
            ml <= ll,
            0 <= i <= ml,
            forall|t: int| 0 <= t < i ==> spec_eq_ci(line@[t], marker@[t]),
        decreases ml - i,
    {
        if upper_code(line.get_char(i)) != upper_code(marker.get_char(i)) {
            return false;
        }
        i += 1;
    }
    true
}

/// Whitespace test, as `spec_is_ws` describes.
fn is_ws(c: char) -> (b: bool)
    ensures
        b == spec_is_ws(c),
{
    c == ' ' || c == '\t' || c == '\n' || c == '\u{b}' || c == '\u{c}' || c == '\r'
}

/// Word-character test, as `spec_is_word` describes.
fn is_word(c: char) -> (b: bool)
    ensures
        b == spec_is_word(c),
{
    let x = c as u32;
    (x >= 97 && x <= 122) || (x >= 65 && x <= 90) || (x >= 48 && x <= 57) || c == '_'
}

/// Reads the heading depth and title off a heading line; `None` for any
/// other line.
fn parse_heading(line: &str) -> (r: Option<(usize, String)>)
    ensures
        match r {
            Option::Some(p) => spec_is_heading(line@) && p.0 as int == spec_heading_level(line@)
                && p.1@ == spec_heading_title(line@),
            Option::None => !spec_is_heading(line@),
        },
{
    let n = line.unicode_len();
    if n == 0 {
        return None;
    }
    let mut k: usize = 0;
    while k < n && line.get_char(k) == '*'
        invariant
            n == line@.len(),
            0 <= k <= n,
            star_end(line@, 0) == star_end(line@, k as int),
            forall|t: int| 0 <= t < k ==> line@[t] == '*',
        decreases n - k,
    {
        k += 1;
    }
    assert(star_end(line@, 0) == k);
    if k == 0 || k >= n {
        return None;
    }
    if line.get_char(k) != ' ' {
        return None;
    }
    if k + 1 >= n {
        return None;
    }
    let title = line.substring_char(k + 1, n).to_owned();
    Some((k, title))
}

/// Reads the language tag off a fence-open line, as `spec_fence_tag`
/// describes.
fn fence_tag(line: &str) -> (r: Option<String>)
    ensures
        match r {
            Option::Some(t) => spec_fence_tag(line@) == Option::Some(t@),
            Option::None => spec_fence_tag(line@) is None,
        },
{
    let marker = "#+BEGIN_SRC";
    let ml = marker.unicode_len();
    proof {
        assert(marker@ == fence_open_marker());
    }
    let n = line.unicode_len();
    if ml >= n {
        return None;
    }
    if !is_ws(line.get_char(ml)) {
        return None;
    }
    let mut j: usize = ml;
    while j < n && is_ws(line.get_char(j))
        invariant
            n == line@.len(),
            ml <= j <= n,
            skip_ws(line@, ml as int) == skip_ws(line@, j as int),
        decreases n - j,
    {
        j += 1;
    }
    assert(skip_ws(line@, ml as int) == j);
    let mut k: usize = j;
    while k < n && is_word(line.get_char(k))
        invariant
            n == line@.len(),
            j <= k <= n,
            word_end(line@, j as int) == word_end(line@, k as int),
        decreases n - k,
    {
        k += 1;
    }
    assert(word_end(line@, j as int) == k);
    if j < n && k > j {
        Some(line.substring_char(j, k).to_owned())
    } else {
        None
    }
}

/// Default-interpreter substitution: outside a fenced region, a fence-open
/// line with no language tag opens a region tagged with the supplied
/// default, and the step equals, in every part of the state but the
/// remembered raw line, the step over a fence-open line that carries that
/// default as its written tag — so the substitution changes neither block
/// order nor block content.
pub proof fn lemma_default_interpreter(
    st: ParseState,
    line: Seq<char>,
    tagged_line: Seq<char>,
    linum: int,
    default_tag: Seq<char>,
)
    requires
        !st.in_block,
        spec_is_fence_open(line),
        (spec_fence_tag(line) is None),
        spec_is_fence_open(tagged_line),
        spec_fence_tag(tagged_line) == Some(default_tag),
    ensures
        parse_step(st, line, linum, default_tag) == Ok::<ParseState, SpecParseError>(
            ParseState {
                in_block: true,
                block_interp: default_tag,
                block_lines: Seq::empty(),
                open_linum: linum,
                open_line: line,
                ..st
            },
        ),
        parse_step(st, line, linum, default_tag)->Ok_0 == (ParseState {
            open_line: line,
            ..parse_step(st, tagged_line, linum, default_tag)->Ok_0
        }),
{
}

/// Inside a fenced region, a step that does not close the region keeps the
/// remembered fence-open line and its number.
pub proof fn lemma_open_line_kept(st: ParseState, line: Seq<char>, linum: int, default_tag: Seq<
    char,
>)
    requires
        st.in_block,
    ensures
        (parse_step(st, line, linum, default_tag) is Ok),
        parse_step(st, line, linum, default_tag)->Ok_0.open_linum == st.open_linum,
        parse_step(st, line, linum, default_tag)->Ok_0.open_line == st.open_line,
{
}

/// Unclosed-block detection: a document that leaves the machine inside a
/// fenced region at end of input fails with the unclosed-block error, and
/// that error reports the remembered fence-open line and its number — not
/// the end of the file.
pub proof fn lemma_unclosed_block(
    lines: Seq<Seq<char>>,
    docname: Seq<char>,
    default_tag: Seq<char>,
)
    requires
        (parse_from(lines, 0, init_state(docname), default_tag) is Ok),
        parse_from(lines, 0, init_state(docname), default_tag)->Ok_0.in_block,
    ensures
        parse_spec(lines, docname, default_tag) == Err::<SpecDoc, SpecParseError>(
            SpecParseError::BlockNotClosed {
                linum: parse_from(lines, 0, init_state(docname), default_tag)->Ok_0.open_linum,
                line: parse_from(lines, 0, init_state(docname), default_tag)->Ok_0.open_line,
            },
        ),
{
}

/// Parses the document `lines` into a tree. The synthetic title node
/// `docname` opens at level 0; a fence-open with no language tag adopts
/// `default_interpreter`. The result, success or structural failure, is
/// exactly what `parse_spec` says for these inputs.
pub fn parse_org_doc(lines: &Vec<String>, docname: String, default_interpreter: &str) -> (r:
    Result<CodeDoc, DocParseError>)
    requires
        forall|t: int|
            0 <= t < lines.deep_view().len() ==> #[trigger] lines.deep_view()[t].len()
                < 0x7FFF_FFFF,
    ensures
        match r {
            Ok(doc) => parse_spec(lines.deep_view(), docname@, default_interpreter@)
                == Ok::<SpecDoc, SpecParseError>(doc@) && doc@.wf(),
            Err(e) => parse_spec(lines.deep_view(), docname@, default_interpreter@) == Err::<
                SpecDoc,
                SpecParseError,
            >(e@),
        },
{
    let ghost ldv = lines.deep_view();
    let ghost dflt = default_interpreter@;
    let ghost init = init_state(docname@);

    let mut doc = CodeDoc::new();
    let mut in_block = false;
    let mut parent: usize = DOC_NODE_ROOT_ID;
    let mut current_level: i32 = 0;
    let mut current_hdr: String = docname;
    let mut code_blocks: Vec<CodeBlock> = Vec::new();
    let mut interp: String = String::new();
    let mut code_lines: Vec<String> = Vec::new();
    let mut open_linum: usize = 0;
    let mut open_line: String = String::new();

    let nlines = lines.len();
    let mut i: usize = 0;
    proof {
        assert(mk_st(
            in_block,
            doc@,
            parent as int,
            current_level as int,
            current_hdr@,
            code_blocks.deep_view(),
            interp@,
            code_lines.deep_view(),
            open_linum as int,
            open_line@,
        ) =~~= init);
        assert(init.doc.chain_consec(0));
    }
    while i < nlines
        invariant
            nlines == ldv.len(),
            ldv == lines.deep_view(),
            dflt == default_interpreter@,
            init == init_state(docname@),
            forall|t: int| 0 <= t < ldv.len() ==> #[trigger] ldv[t].len() < 0x7FFF_FFFF,
            0 <= i <= nlines,
            0 <= current_level < 0x7FFF_FFFF,
            st_inv(mk_st(
                in_block,
                doc@,
                parent as int,
                current_level as int,
                current_hdr@,
                code_blocks.deep_view(),
                interp@,
                code_lines.deep_view(),
                open_linum as int,
                open_line@,
            )),
            parse_from(ldv, 0, init, dflt) == parse_from(
                ldv,
                i as int,
                mk_st(
                    in_block,
                    doc@,
                    parent as int,
                    current_level as int,
                    current_hdr@,
                    code_blocks.deep_view(),
                    interp@,
                    code_lines.deep_view(),
                    open_linum as int,
                    open_line@,
                ),
                dflt,
            ),
        decreases nlines - i,
    {
        let ghost stpre = mk_st(
            in_block,
            doc@,
            parent as int,
            current_level as int,
            current_hdr@,
            code_blocks.deep_view(),
            interp@,
            code_lines.deep_view(),
            open_linum as int,
            open_line@,
        );
        let line: &String = &lines[i];
        let linum = i + 1;
        proof {
            assert(line@ == ldv[i as int]);
        }
        if in_block {
            if is_prefix_ci(line.as_str(), "#+END_SRC") {
                let code = join_lines(&code_lines);
                code_blocks.push(CodeBlock { interpreter: interp.clone(), code });
                in_block = false;
                proof {
                    let st2 = ParseState {
                        in_block: false,
                        cur_blocks: stpre.cur_blocks.push(
                            SpecCodeBlock {
                                interpreter: stpre.block_interp,
                                code: join_nl(stpre.block_lines),
                            },
                        ),
                        ..stpre
                    };
                    assert(parse_step(stpre, ldv[i as int], linum as int, dflt) == Ok::<
                        ParseState,
                        SpecParseError,
                    >(st2));
                    assert(mk_st(
                        in_block,
                        doc@,
                        parent as int,
                        current_level as int,
                        current_hdr@,
                        code_blocks.deep_view(),
                        interp@,
                        code_lines.deep_view(),
                        open_linum as int,
                        open_line@,
                    ) =~~= st2);
                }
            } else {
                code_lines.push(line.clone());
                proof {
                    let st2 = ParseState { block_lines: stpre.block_lines.push(ldv[i as int]), ..stpre };
                    assert(parse_step(stpre, ldv[i as int], linum as int, dflt) == Ok::<
                        ParseState,
                        SpecParseError,
                    >(st2));
                    assert(mk_st(
                        in_block,
                        doc@,
                        parent as int,
                        current_level as int,
                        current_hdr@,
                        code_blocks.deep_view(),
                        interp@,
                        code_lines.deep_view(),
                        open_linum as int,
                        open_line@,
                    ) =~~= st2);
                }
            }
        } else if is_prefix_ci(line.as_str(), "#+BEGIN_SRC") {
            interp = match fence_tag(line.as_str()) {
                Option::Some(t) => t,
                Option::None => default_interpreter.to_owned(),
            };
            code_lines = Vec::new();
            open_linum = linum;
            open_line = line.clone();
            in_block = true;
            proof {
                let st2 = ParseState {
                    in_block: true,
                    block_interp: match spec_fence_tag(ldv[i as int]) {
                        Option::Some(t) => t,
                        Option::None => dflt,
                    },
                    block_lines: Seq::empty(),
                    open_linum: linum as int,
                    open_line: ldv[i as int],
                    ..stpre
                };
                assert(parse_step(stpre, ldv[i as int], linum as int, dflt) == Ok::<
                    ParseState,
                    SpecParseError,
                >(st2));
                assert(mk_st(
                    in_block,
                    doc@,
                    parent as int,
                    current_level as int,
                    current_hdr@,
                    code_blocks.deep_view(),
                    interp@,
                    code_lines.deep_view(),
                    open_linum as int,
                    open_line@,
                ) =~~= st2);
            }
        } else {
            let heading = parse_heading(line.as_str());
            match heading {
                Option::Some(p) => {
                    let lvl = p.0;
                    let title = p.1;
                    proof {
                        lemma_star_end_bounds(ldv[i as int], 0);
                    }
                    let new_level: i32 = lvl as i32;
                    let ghost id_g = doc@.nodes.len() as int;
                    let ghost doc_pre = doc@;
                    let id = doc.add(parent, current_hdr, current_level, code_blocks);
                    current_hdr = title;
                    code_blocks = Vec::new();
                    proof {
                        lemma_chain_consec_push(
                            doc_pre,
                            parent as int,
                            parent as int,
                            SpecDocNode {
                                name: stpre.cur_name,
                                level: stpre.cur_level,
                                code_blocks: stpre.cur_blocks,
                            },
                        );
                        assert(doc@.chain_consec(parent as int));
                        assert(doc@.parent[id_g] == parent as int);
                        assert(doc@.nodes[id_g].level == current_level as int);
                        assert(doc@.chain_consec(id_g));
                    }
                    if new_level <= current_level + 1 {
                        let steps = current_level - new_level + 1;
                        proof {
                            lemma_ascend_props(doc@, id_g, steps as int);
                        }
                        let ghost lvl_pre = current_level as int;
                        let mut p2 = id;
                        let mut s: i32 = 0;
                        while s < steps
                            invariant
                                doc@.wf(),
                                0 <= s <= steps,
                                steps as int == lvl_pre - new_level + 1,
                                1 <= new_level,
                                id as int == id_g,
                                0 <= id_g < doc@.nodes.len(),
                                doc@.nodes[id_g].level == lvl_pre,
                                doc@.chain_consec(id_g),
                                p2 as int == doc@.ascend(id_g, s as int),
                                0 <= p2 < doc@.nodes.len(),
                                doc@.nodes[p2 as int].level == lvl_pre - s,
                                doc@.chain_consec(p2 as int),
                            decreases steps - s,
                        {
                            proof {
                                assert(doc@.nodes[p2 as int].level >= new_level);
                                assert(p2 != 0);
                                lemma_ascend_step(doc@, id_g, s as int);
                                lemma_ascend_props(doc@, id_g, s + 1);
                            }
                            p2 = doc.get_parent(p2).unwrap();
                            s += 1;
                        }
                        parent = p2;
                        current_level = new_level;
                        proof {
                            let doc1 = stpre.doc.push_node(
                                stpre.parent,
                                SpecDocNode {
                                    name: stpre.cur_name,
                                    level: stpre.cur_level,
                                    code_blocks: stpre.cur_blocks,
                                },
                            );
                            assert(doc@ =~~= doc1);
                            let st2 = ParseState {
                                doc: doc1,
                                parent: doc1.ascend(id_g, stpre.cur_level - new_level + 1),
                                cur_level: new_level as int,
                                cur_name: spec_heading_title(ldv[i as int]),
                                cur_blocks: Seq::empty(),
                                ..stpre
                            };
                            assert(parse_step(stpre, ldv[i as int], linum as int, dflt) == Ok::<
                                ParseState,
                                SpecParseError,
                            >(st2));
                            assert(mk_st(
                                in_block,
                                doc@,
                                parent as int,
                                current_level as int,
                                current_hdr@,
                                code_blocks.deep_view(),
                                interp@,
                                code_lines.deep_view(),
                                open_linum as int,
                                open_line@,
                            ) =~~= st2);
                        }
                    } else {
                        proof {
                            let e_spec = SpecParseError::UnexpectedLevel {
                                linum: linum as int,
                                line: ldv[i as int],
                            };
                            assert(parse_step(stpre, ldv[i as int], linum as int, dflt) == Err::<
                                ParseState,
                                SpecParseError,
                            >(e_spec));
                            assert(parse_from(ldv, i as int, stpre, dflt) == Err::<
                                ParseState,
                                SpecParseError,
                            >(e_spec));
                            assert(parse_spec(ldv, docname@, dflt) == Err::<
                                SpecDoc,
                                SpecParseError,
                            >(e_spec));
                        }
                        return Err(DocParseError::UnexpectedLevel { linum, line: line.clone() });
                    }
                },
                Option::None => {
                    if is_prefix_ci(line.as_str(), "#+END_SRC") {
                        proof {
                            let e_spec = SpecParseError::UnexpectedLine {
                                linum: linum as int,
                                line: ldv[i as int],
                            };
                            assert(parse_step(stpre, ldv[i as int], linum as int, dflt) == Err::<
                                ParseState,
                                SpecParseError,
                            >(e_spec));
                            assert(parse_from(ldv, i as int, stpre, dflt) == Err::<
                                ParseState,
                                SpecParseError,
                            >(e_spec));
                            assert(parse_spec(ldv, docname@, dflt) == Err::<
                                SpecDoc,
                                SpecParseError,
                            >(e_spec));
                        }
                        return Err(DocParseError::UnexpectedLine { linum, line: line.clone() });
                    }
                    proof {
                        assert(parse_step(stpre, ldv[i as int], linum as int, dflt) == Ok::<
                            ParseState,
                            SpecParseError,
                        >(stpre));
                    }
                },
            }
        }
        i += 1;
    }
    let ghost st_end = mk_st(
        in_block,
        doc@,
        parent as int,
        current_level as int,
        current_hdr@,
        code_blocks.deep_view(),
        interp@,
        code_lines.deep_view(),
        open_linum as int,
        open_line@,
    );
    proof {
        assert(parse_from(ldv, nlines as int, st_end, dflt) == Ok::<ParseState, SpecParseError>(
            st_end,
        ));
        assert(parse_from(ldv, 0, init, dflt) == Ok::<ParseState, SpecParseError>(st_end));
    }
    if in_block {
        proof {
            assert(parse_spec(ldv, docname@, dflt) == Err::<SpecDoc, SpecParseError>(
                SpecParseError::BlockNotClosed {
                    linum: st_end.open_linum,
                    line: st_end.open_line,
                },
            ));
        }
        return Err(DocParseError::BlockNotClosed { linum: open_linum, line: open_line });
    }
    let _ = doc.add(parent, current_hdr, current_level, code_blocks);
    proof {
        assert(doc@ =~~= st_end.doc.push_node(
            st_end.parent,
            SpecDocNode {
                name: st_end.cur_name,
                level: st_end.cur_level,
                code_blocks: st_end.cur_blocks,
            },
        ));
        assert(parse_spec(ldv, docname@, dflt) == Ok::<SpecDoc, SpecParseError>(doc@));
    }
    Ok(doc)
}

} // verus!
