//! The block accumulator: a state machine over the lines of each file that
//! gathers documentation comment blocks into documents, places source links
//! and harvests fenced examples.

use vstd::prelude::*;
use crate::docs::{key_pos, keys_distinct, with_key, DocModel, Documents};
use crate::pattern::{declares, Declarations};
use crate::text::{classify, comment_content, contains_ws, decimal, decimal_string, has_whitespace, leading_whitespace, trim_start, trim_end, trimmed_end_len};

verus! {

/// Where the scanner stands within a file.
#[derive(Clone, Copy, PartialEq, Eq, Structural)]
pub enum Phase {
    /// Not inside a comment block.
    Idle,
    /// Inside a block whose key was accepted.
    Open,
    /// Inside a block whose key was rejected.
    Skipping,
}

/// The scanner's state as plain values.
pub ghost struct StateModel {
    pub phase: Phase,
    /// Position of the open block's document.
    pub doc: int,
    /// Length of that document when the block opened.
    pub start: int,
    /// Whether an example fence is open.
    pub in_fence: bool,
}

/// Scanner state, documents and harvested example lines together.
pub ghost struct ScanModel {
    pub st: StateModel,
    pub docs: Seq<DocModel>,
    pub examples: Seq<Seq<char>>,
}

pub open spec fn strings(v: Seq<String>) -> Seq<Seq<char>> {
    v.map_values(|s: String| s@)
}

pub open spec fn idle_state() -> StateModel {
    StateModel { phase: Phase::Idle, doc: 0, start: 0, in_fence: false }
}

pub open spec fn fence_open() -> Seq<char> {
    seq!['`', '`', '`', 'r']
}

pub open spec fn fence_close() -> Seq<char> {
    seq!['`', '`', '`']
}

/// The line that ends an example in the harvested sequence.
pub open spec fn end_of_example() -> Seq<char> {
    "***end_of_example"@
}

pub open spec fn drop_last_char(s: Seq<char>) -> Seq<char> {
    if s.len() > 0 {
        s.drop_last()
    } else {
        s
    }
}

/// The link placed on an anchor line: `base/path#L<line>`.
pub open spec fn source_link(base: Seq<char>, path: Seq<char>, line: nat) -> Seq<char> {
    "<span style=\"float: right;\"> [source]("@ + base + "/"@ + path + "#L"@ + decimal(line)
        + ") </span> \\"@
}

/// The open fence flag and the examples after content line `c` of an open block.
pub open spec fn harvest(in_fence: bool, ex: Seq<Seq<char>>, c: Seq<char>) -> (bool, Seq<Seq<char>>) {
    if in_fence {
        if trim_end(c) == fence_close() {
            (false, ex.push(end_of_example()))
        } else {
            (true, ex.push(c))
        }
    } else {
        (trim_end(c) == fence_open(), ex)
    }
}

/// Whether the line at `a` of document `d` may take a link.
pub open spec fn anchor_ok(docs: Seq<DocModel>, d: int, a: int) -> bool {
    0 <= d < docs.len() && 0 <= a < docs[d].lines.len()
}

/// The documents after a link to line `line_no` (1-based) of `path` was placed
/// on the block's second content line, when that line exists.
pub open spec fn place_link(
    docs: Seq<DocModel>,
    st: StateModel,
    base: Seq<char>,
    path: Seq<char>,
    line_no: nat,
) -> Seq<DocModel> {
    let a = st.start + 1;
    if anchor_ok(docs, st.doc, a) {
        let dm = docs[st.doc];
        docs.update(
            st.doc,
            DocModel {
                key: dm.key,
                lines: dm.lines.update(a, drop_last_char(dm.lines[a]) + source_link(base, path, line_no)),
            },
        )
    } else {
        docs
    }
}

/// One line, at 0-based index `idx` of file `path`. `decl` tells whether the
/// line, without its leading whitespace, declares a function.
pub open spec fn step(
    s: ScanModel,
    line: Seq<char>,
    idx: nat,
    decl: bool,
    path: Seq<char>,
    base: Seq<char>,
    run: bool,
) -> ScanModel {
    match classify(line) {
        Some(c) => match s.st.phase {
            Phase::Idle => {
                if contains_ws(c) {
                    ScanModel { st: StateModel { phase: Phase::Skipping, ..s.st }, ..s }
                } else {
                    let ds = with_key(s.docs, c);
                    let i = key_pos(ds, c);
                    ScanModel {
                        st: StateModel { phase: Phase::Open, doc: i, start: ds[i].lines.len() as int, ..s.st },
                        docs: ds,
                        examples: s.examples,
                    }
                }
            },
            Phase::Open => {
                let dm = s.docs[s.st.doc];
                let ds = s.docs.update(s.st.doc, DocModel { key: dm.key, lines: dm.lines.push(c) });
                let h = if run {
                    harvest(s.st.in_fence, s.examples, c)
                } else {
                    (s.st.in_fence, s.examples)
                };
                ScanModel { st: StateModel { in_fence: h.0, ..s.st }, docs: ds, examples: h.1 }
            },
            Phase::Skipping => s,
        },
        None => {
            let ds = if s.st.phase == Phase::Open && base.len() > 0 && decl {
                place_link(s.docs, s.st, base, path, idx + 1)
            } else {
                s.docs
            };
            ScanModel { st: StateModel { phase: Phase::Idle, ..s.st }, docs: ds, examples: s.examples }
        },
    }
}

/// One line, with the declaration test made by the regex engine.
pub open spec fn line_step(
    s: ScanModel,
    line: Seq<char>,
    idx: nat,
    path: Seq<char>,
    base: Seq<char>,
    run: bool,
) -> ScanModel {
    step(s, line, idx, declares(trim_start(line)), path, base, run)
}

/// The scan after the first `k` lines of a file.
pub open spec fn scan_prefix(
    s: ScanModel,
    lines: Seq<Seq<char>>,
    k: nat,
    path: Seq<char>,
    base: Seq<char>,
    run: bool,
) -> ScanModel
    decreases k,
{
    if k == 0 {
        s
    } else {
        let k1 = (k - 1) as nat;
        line_step(scan_prefix(s, lines, k1, path, base, run), lines[k1 as int], k1, path, base, run)
    }
}

/// Documents and examples after a whole file, which starts outside any block.
pub open spec fn scan_file_model(
    docs: Seq<DocModel>,
    examples: Seq<Seq<char>>,
    lines: Seq<Seq<char>>,
    path: Seq<char>,
    base: Seq<char>,
    run: bool,
) -> (Seq<DocModel>, Seq<Seq<char>>) {
    let r = scan_prefix(
        ScanModel { st: idle_state(), docs, examples },
        lines,
        lines.len(),
        path,
        base,
        run,
    );
    (r.docs, r.examples)
}

/// Documents and examples after the first `k` files, in order.
pub open spec fn scan_files(
    docs: Seq<DocModel>,
    examples: Seq<Seq<char>>,
    files: Seq<SourceFile>,
    k: nat,
    base: Seq<char>,
    run: bool,
) -> (Seq<DocModel>, Seq<Seq<char>>)
    decreases k,
{
    if k == 0 {
        (docs, examples)
    } else {
        let k1 = (k - 1) as nat;
        let p = scan_files(docs, examples, files, k1, base, run);
        scan_file_model(p.0, p.1, strings(files[k1 as int].lines@), files[k1 as int].path@, base, run)
    }
}

/// A source file: its path and its lines.
pub struct SourceFile {
    pub path: String,
    pub lines: Vec<String>,
}

/// Scans one file into `docs` and `examples`.
pub fn scan_file(
    decls: &Declarations,
    lines: &Vec<String>,
    path: &str,
    base: &str,
    run: bool,
    docs: &mut Documents,
    examples: &mut Vec<String>,
)
    requires
        decls.wf(),
        old(docs).wf(),
    ensures
        final(docs).wf(),
        (final(docs).model(), strings(final(examples)@)) == scan_file_model(
            old(docs).model(),
            strings(old(examples)@),
            strings(lines@),
            path@,
            base@,
            run,
        ),
{
    let ghost s0 = ScanModel { st: idle_state(), docs: docs.model(), examples: strings(examples@) };
    let mut sc = Scanner::new();
    let mut i: usize = 0;
    while i < lines.len()
        invariant
            decls.wf(),
            docs.wf(),
            i <= lines@.len(),
            fits(sc.model(), docs.model()),
            (ScanModel { st: sc.model(), docs: docs.model(), examples: strings(examples@) })
                == scan_prefix(s0, strings(lines@), i as nat, path@, base@, run),
        decreases lines@.len() - i,
    {
        sc.scan_line(decls, lines[i].as_str(), i, path, base, run, docs, examples);
        i = i + 1;
    }
}

/// Scans the files in order into `docs` and `examples`.
pub fn generate_docs(
    decls: &Declarations,
    files: &Vec<SourceFile>,
    base: &str,
    run: bool,
    docs: &mut Documents,
    examples: &mut Vec<String>,
)
    requires
        decls.wf(),
        old(docs).wf(),
    ensures
        final(docs).wf(),
        (final(docs).model(), strings(final(examples)@)) == scan_files(
            old(docs).model(),
            strings(old(examples)@),
            files@,
            files@.len(),
            base@,
            run,
        ),
{
    let ghost d0 = docs.model();
    let ghost e0 = strings(examples@);
    let mut i: usize = 0;
    while i < files.len()
        invariant
            decls.wf(),
            docs.wf(),
            i <= files@.len(),
            (docs.model(), strings(examples@)) == scan_files(d0, e0, files@, i as nat, base@, run),
        decreases files@.len() - i,
    {
        scan_file(decls, &files[i].lines, files[i].path.as_str(), base, run, docs, examples);
        i = i + 1;
    }
}

/// The state the scanner keeps may be used on these documents.
pub open spec fn fits(st: StateModel, docs: Seq<DocModel>) -> bool {
    keys_distinct(docs) && (st.phase == Phase::Open ==> 0 <= st.doc < docs.len() && 0 <= st.start
        <= docs[st.doc].lines.len())
}

/// The state of a scan within one file.
pub struct Scanner {
    pub phase: Phase,
    pub doc: usize,
    pub start: usize,
    pub in_fence: bool,
}

impl Scanner {
    pub open spec fn model(&self) -> StateModel {
        StateModel {
            phase: self.phase,
            doc: self.doc as int,
            start: self.start as int,
            in_fence: self.in_fence,
        }
    }

    /// The state at the start of a file.
    pub fn new() -> (r: Scanner)
        ensures
            r.model() == idle_state(),
    {
        Scanner { phase: Phase::Idle, doc: 0, start: 0, in_fence: false }
    }

    /// Takes one line, whose declaration test `declaration` was made by the
    /// caller.
    pub fn apply_line(
        &mut self,
        line: &str,
        idx: usize,
        declaration: bool,
        path: &str,
        base: &str,
        run: bool,
        docs: &mut Documents,
        examples: &mut Vec<String>,
    )
        requires
            old(docs).wf(),
            fits(old(self).model(), old(docs).model()),
            idx < usize::MAX,
        ensures
            final(docs).wf(),
            fits(final(self).model(), final(docs).model()),
            (ScanModel {
                st: final(self).model(),
                docs: final(docs).model(),
                examples: strings(final(examples)@),
            }) == step(
                ScanModel {
                    st: old(self).model(),
                    docs: old(docs).model(),
                    examples: strings(old(examples)@),
                },
                line@,
                idx as nat,
                declaration,
                path@,
                base@,
                run,
            ),
    {
        let ghost ex0 = strings(examples@);
        match comment_content(line) {
            Some(c) => {
                if self.phase == Phase::Idle {
                    if has_whitespace(c.as_str()) {
                        self.phase = Phase::Skipping;
                    } else {
                        let i = docs.open_key(&c);
                        self.doc = i;
                        self.start = docs.entries[i].lines.len();
                        self.phase = Phase::Open;
                    }
                } else if self.phase == Phase::Open {
                    if run {
                        if self.in_fence {
                            if is_fence(c.as_str(), false) {
                                examples.push(String::from_str("***end_of_example"));
                                self.in_fence = false;
                            } else {
                                examples.push(c.clone());
                            }
                        } else {
                            self.in_fence = is_fence(c.as_str(), true);
                        }
                        assert(strings(examples@) =~= harvest(old(self).in_fence, ex0, c@).1);
                    }
                    docs.push_line(self.doc, c);
                }
            },
            None => {
                if self.phase == Phase::Open && base.unicode_len() > 0 && declaration {
                    let len = docs.entries[self.doc].lines.len();
                    if len > 0 && self.start < len - 1 {
                        let a = self.start + 1;
                        let linked = with_link(docs.line_at(self.doc, a).as_str(), base, path, idx + 1);
                        docs.set_line(self.doc, a, linked);
                    }
                }
                self.phase = Phase::Idle;
            },
        }
    }

    /// Takes one line, testing it for a declaration where that matters.
    pub fn scan_line(
        &mut self,
        decls: &Declarations,
        line: &str,
        idx: usize,
        path: &str,
        base: &str,
        run: bool,
        docs: &mut Documents,
        examples: &mut Vec<String>,
    )
        requires
            decls.wf(),
            old(docs).wf(),
            fits(old(self).model(), old(docs).model()),
            idx < usize::MAX,
        ensures
            final(docs).wf(),
            fits(final(self).model(), final(docs).model()),
            (ScanModel {
                st: final(self).model(),
                docs: final(docs).model(),
                examples: strings(final(examples)@),
            }) == line_step(
                ScanModel {
                    st: old(self).model(),
                    docs: old(docs).model(),
                    examples: strings(old(examples)@),
                },
                line@,
                idx as nat,
                path@,
                base@,
                run,
            ),
    {
        let mut declaration = false;
        if self.phase == Phase::Open && base.unicode_len() > 0 {
            let n = line.unicode_len();
            let i = leading_whitespace(line);
            declaration = decls.declares(line.substring_char(i, n));
        }
        self.apply_line(line, idx, declaration, path, base, run, docs, examples);
    }
}

/// Whether `c` without trailing whitespace is the fence that opens an example
/// (`lang`) or the one that closes it.
fn is_fence(c: &str, lang: bool) -> (r: bool)
    ensures
        r == (trim_end(c@) == if lang { fence_open() } else { fence_close() }),
{
    let e = trimmed_end_len(c);
    let ghost t = trim_end(c@);
    let want: usize = if lang { 4 } else { 3 };
    let ghost w = if lang { fence_open() } else { fence_close() };
    if e != want {
        assert(t.len() != w.len());
        return false;
    }
    if c.get_char(0) != '`' {
        assert(t[0] != w[0]);
        return false;
    }
    if c.get_char(1) != '`' {
        assert(t[1] != w[1]);
        return false;
    }
    if c.get_char(2) != '`' {
        assert(t[2] != w[2]);
        return false;
    }
    if lang && c.get_char(3) != 'r' {
        assert(t[3] != w[3]);
        return false;
    }
    assert(t =~= w);
    true
}

/// `old` without its last character, followed by the link to `line` of `path`.
fn with_link(old: &str, base: &str, path: &str, line: usize) -> (r: String)
    ensures
        r@ == drop_last_char(old@) + source_link(base@, path@, line as nat),
{
    let n = old.unicode_len();
    let keep = if n > 0 { n - 1 } else { 0 };
    let mut r = String::from_str(old.substring_char(0, keep));
    assert(r@ =~= drop_last_char(old@));
    r.append("<span style=\"float: right;\"> [source](");
    r.append(base);
    r.append("/");
    r.append(path);
    r.append("#L");
    let d = decimal_string(line);
    r.append(d.as_str());
    r.append(") </span> \\");
    r
}

} // verus!
