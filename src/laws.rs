//! Properties of the scan as a whole, proved over its specification.

use vstd::prelude::*;
use crate::docs::{has_key, key_pos, keys_distinct, lemma_key_pos, lines_of, with_key, DocModel};
use crate::emit::rendered;
use crate::scan::{
    anchor_ok, end_of_example, StateModel, fence_close, fence_open, fits, idle_state, scan_file_model,
    scan_files, scan_prefix, step, strings, Phase, ScanModel, SourceFile,
};
use crate::text::{classify, contains_ws, lead_ws, trim_end, trim_start};

verus! {

pub open spec fn all_code(lines: Seq<Seq<char>>) -> bool {
    forall|j: int| 0 <= j < lines.len() ==> classify(#[trigger] lines[j]) is None
}

proof fn lemma_code_prefix(s: ScanModel, lines: Seq<Seq<char>>, k: nat, path: Seq<char>, base: Seq<char>, run: bool)
    requires
        s.st.phase == Phase::Idle,
        k <= lines.len(),
        all_code(lines),
    ensures
        scan_prefix(s, lines, k, path, base, run).docs == s.docs,
        scan_prefix(s, lines, k, path, base, run).examples == s.examples,
        scan_prefix(s, lines, k, path, base, run).st.phase == Phase::Idle,
    decreases k,
{
    if k > 0 {
        lemma_code_prefix(s, lines, (k - 1) as nat, path, base, run);
        assert(classify(lines[k - 1]) is None);
    }
}

proof fn lemma_code_files(
    docs: Seq<DocModel>,
    examples: Seq<Seq<char>>,
    files: Seq<SourceFile>,
    k: nat,
    base: Seq<char>,
    run: bool,
)
    requires
        k <= files.len(),
        forall|f: int| 0 <= f < files.len() ==> all_code(strings(#[trigger] files[f].lines@)),
    ensures
        scan_files(docs, examples, files, k, base, run) == (docs, examples),
    decreases k,
{
    if k > 0 {
        let f = k - 1;
        lemma_code_files(docs, examples, files, (k - 1) as nat, base, run);
        let lines = strings(files[f].lines@);
        assert(all_code(lines));
        lemma_code_prefix(
            ScanModel { st: idle_state(), docs, examples },
            lines,
            lines.len(),
            files[f].path@,
            base,
            run,
        );
    }
}

/// Files without documentation comment lines give no documents and no
/// examples.
pub proof fn lemma_no_comments_no_documents(files: Seq<SourceFile>, base: Seq<char>, run: bool)
    requires
        forall|f: int| 0 <= f < files.len() ==> all_code(strings(#[trigger] files[f].lines@)),
    ensures
        scan_files(Seq::empty(), Seq::empty(), files, files.len(), base, run).0 == Seq::<DocModel>::empty(),
        scan_files(Seq::empty(), Seq::empty(), files, files.len(), base, run).1 == Seq::<Seq<char>>::empty(),
{
    lemma_code_files(Seq::empty(), Seq::empty(), files, files.len(), base, run);
}

/// Lines `i..j` of `lines` are comment lines.
pub open spec fn comments_between(lines: Seq<Seq<char>>, i: int, j: int) -> bool {
    forall|m: int| i <= m < j ==> classify(#[trigger] lines[m]) is Some
}

proof fn lemma_skipping(
    s: ScanModel,
    lines: Seq<Seq<char>>,
    i: nat,
    k: nat,
    path: Seq<char>,
    base: Seq<char>,
    run: bool,
)
    requires
        i < k <= lines.len(),
        scan_prefix(s, lines, i, path, base, run).st.phase == Phase::Idle,
        comments_between(lines, i as int, k as int),
        contains_ws(classify(lines[i as int])->0),
    ensures
        scan_prefix(s, lines, k, path, base, run).st.phase == Phase::Skipping,
        scan_prefix(s, lines, k, path, base, run).docs == scan_prefix(s, lines, i, path, base, run).docs,
        scan_prefix(s, lines, k, path, base, run).examples == scan_prefix(s, lines, i, path, base, run).examples,
    decreases k,
{
    if k > i + 1 {
        lemma_skipping(s, lines, i, (k - 1) as nat, path, base, run);
        assert(classify(lines[k - 1]) is Some);
    } else {
        assert(classify(lines[i as int]) is Some);
    }
}

/// A block whose first line holds whitespace changes no document and no
/// example, and the scan is outside any block again after the code line that
/// ends it.
pub proof fn lemma_malformed_block_skipped(
    s: ScanModel,
    lines: Seq<Seq<char>>,
    i: nat,
    j: nat,
    path: Seq<char>,
    base: Seq<char>,
    run: bool,
)
    requires
        i < j < lines.len(),
        scan_prefix(s, lines, i, path, base, run).st.phase == Phase::Idle,
        comments_between(lines, i as int, j as int),
        contains_ws(classify(lines[i as int])->0),
        classify(lines[j as int]) is None,
    ensures
        scan_prefix(s, lines, j + 1, path, base, run).st.phase == Phase::Idle,
        scan_prefix(s, lines, j + 1, path, base, run).docs == scan_prefix(s, lines, i, path, base, run).docs,
        scan_prefix(s, lines, j + 1, path, base, run).examples == scan_prefix(s, lines, i, path, base, run).examples,
{
    lemma_skipping(s, lines, i, j, path, base, run);
}

/// Two runs over the same files from an empty set give the same pages.
pub proof fn lemma_runs_agree(
    files: Seq<SourceFile>,
    base: Seq<char>,
    run: bool,
    first: Seq<DocModel>,
    second: Seq<DocModel>,
)
    requires
        first == scan_files(Seq::empty(), Seq::empty(), files, files.len(), base, run).0,
        second == scan_files(Seq::empty(), Seq::empty(), files, files.len(), base, run).0,
    ensures
        first.len() == second.len(),
        forall|d: int| 0 <= d < first.len() ==> rendered(first[d].key, first[d].lines)
            == rendered(#[trigger] second[d].key, second[d].lines),
{
}

/// A line never rewrites a stored line unless it is a code line that closes
/// an accepted block, declares a function, and a link base is set; then only
/// the block's second stored line changes, and only when it exists.
pub proof fn lemma_link_placement(
    s: ScanModel,
    line: Seq<char>,
    idx: nat,
    decl: bool,
    path: Seq<char>,
    base: Seq<char>,
    run: bool,
)
    requires
        fits(s.st, s.docs),
    ensures
        ({
            let r = step(s, line, idx, decl, path, base, run);
            let linking = classify(line) is None && s.st.phase == Phase::Open && base.len() > 0
                && decl;
            &&& r.docs.len() >= s.docs.len()
            &&& forall|d: int| 0 <= d < s.docs.len() ==> r.docs[d].key == s.docs[d].key
                && r.docs[d].lines.len() >= s.docs[d].lines.len()
            &&& forall|d: int, m: int|
                0 <= d < s.docs.len() && 0 <= m < s.docs[d].lines.len() && !(linking && d
                    == s.st.doc && m == s.st.start + 1) ==> r.docs[d].lines[m] == s.docs[d].lines[m]
            &&& !anchor_ok(s.docs, s.st.doc, s.st.start + 1) && linking ==> r.docs == s.docs
        }),
{
    let r = step(s, line, idx, decl, path, base, run);
    match classify(line) {
        Some(c) => {
            if s.st.phase == Phase::Idle && !contains_ws(c) {
                assert(with_key(s.docs, c).len() >= s.docs.len());
                assert forall|d: int| 0 <= d < s.docs.len() implies with_key(s.docs, c)[d] == s.docs[d] by {}
            }
        },
        None => {},
    }
}

/// The contents of comment lines, markers removed.
pub open spec fn contents(lines: Seq<Seq<char>>) -> Seq<Seq<char>> {
    lines.map_values(|l: Seq<char>| classify(l)->0)
}

proof fn lemma_block_prefix(
    s: ScanModel,
    lines: Seq<Seq<char>>,
    k: nat,
    path: Seq<char>,
    base: Seq<char>,
    run: bool,
)
    requires
        s.st.phase == Phase::Idle,
        s.docs == Seq::<DocModel>::empty(),
        1 <= k <= lines.len(),
        comments_between(lines, 0, lines.len() as int),
        !contains_ws(classify(lines[0])->0),
    ensures
        scan_prefix(s, lines, k, path, base, run).st.phase == Phase::Open,
        scan_prefix(s, lines, k, path, base, run).st.doc == 0,
        scan_prefix(s, lines, k, path, base, run).docs == seq![
            DocModel { key: classify(lines[0])->0, lines: contents(lines.subrange(1, k as int)) },
        ],
    decreases k,
{
    let key = classify(lines[0])->0;
    if k == 1 {
        assert(classify(lines[0]) is Some);
        let ds = with_key(Seq::<DocModel>::empty(), key);
        assert(!has_key(Seq::<DocModel>::empty(), key));
        crate::docs::lemma_key_pos(ds, key, 0);
        assert(contents(lines.subrange(1, 1)) =~= Seq::<Seq<char>>::empty());
        assert(ds =~= seq![DocModel { key, lines: contents(lines.subrange(1, 1)) }]);
    } else {
        lemma_block_prefix(s, lines, (k - 1) as nat, path, base, run);
        assert(classify(lines[k - 1]) is Some);
        assert(contents(lines.subrange(1, k as int)) =~= contents(lines.subrange(1, k - 1)).push(
            classify(lines[k - 1])->0,
        ));
        let p = scan_prefix(s, lines, (k - 1) as nat, path, base, run);
        let r = scan_prefix(s, lines, k, path, base, run);
        assert(r.docs =~= seq![
            DocModel { key, lines: contents(lines.subrange(1, k as int)) },
        ]);
    }
}

/// A file that is one block with a one-word key gives one document: that key,
/// with the block's other lines, markers and one space removed, in order.
pub proof fn lemma_block_collected(
    examples: Seq<Seq<char>>,
    lines: Seq<Seq<char>>,
    path: Seq<char>,
    base: Seq<char>,
    run: bool,
)
    requires
        lines.len() >= 1,
        comments_between(lines, 0, lines.len() as int),
        !contains_ws(classify(lines[0])->0),
    ensures
        scan_file_model(Seq::empty(), examples, lines, path, base, run).0 == seq![
            DocModel { key: classify(lines[0])->0, lines: contents(lines.skip(1)) },
        ],
{
    lemma_block_prefix(
        ScanModel { st: idle_state(), docs: Seq::empty(), examples },
        lines,
        lines.len(),
        path,
        base,
        run,
    );
    assert(lines.subrange(1, lines.len() as int) =~= lines.skip(1));
}

proof fn lemma_with_key_distinct(ds: Seq<DocModel>, k: Seq<char>)
    requires
        keys_distinct(ds),
    ensures
        keys_distinct(with_key(ds, k)),
        has_key(with_key(ds, k), k),
        0 <= key_pos(with_key(ds, k), k) < with_key(ds, k).len(),
        with_key(ds, k)[key_pos(with_key(ds, k), k)].key == k,
        with_key(ds, k)[key_pos(with_key(ds, k), k)].lines == lines_of(ds, k),
        forall|k2: Seq<char>| k2 != k ==> lines_of(#[trigger] with_key(ds, k), k2) == lines_of(ds, k2),
{
    let w = with_key(ds, k);
    if !has_key(ds, k) {
        assert forall|a: int, b: int| 0 <= a < b < w.len() implies w[a].key != w[b].key by {
            if b == ds.len() {
                assert(ds[a].key != k);
            }
        }
        lemma_key_pos(w, k, ds.len() as int);
        assert forall|k2: Seq<char>| k2 != k implies lines_of(#[trigger] with_key(ds, k), k2)
            == lines_of(ds, k2) by {
            if has_key(ds, k2) {
                let q = key_pos(ds, k2);
                lemma_key_pos(ds, k2, q);
                lemma_key_pos(w, k2, q);
            } else {
                assert(!has_key(w, k2)) by {
                    if has_key(w, k2) {
                        let q = choose|q: int| 0 <= q < w.len() && (#[trigger] w[q]).key == k2;
                        assert(q < ds.len());
                        assert(ds[q].key == k2);
                    }
                }
            }
        }
    } else {
        let q = key_pos(ds, k);
        lemma_key_pos(ds, k, q);
    }
}

proof fn lemma_update_lines(ds: Seq<DocModel>, d: int, k: Seq<char>, l: Seq<Seq<char>>)
    requires
        keys_distinct(ds),
        0 <= d < ds.len(),
        ds[d].key == k,
    ensures
        keys_distinct(ds.update(d, DocModel { key: k, lines: l })),
        key_pos(ds.update(d, DocModel { key: k, lines: l }), k) == d,
        lines_of(ds.update(d, DocModel { key: k, lines: l }), k) == l,
        forall|k2: Seq<char>| k2 != k ==> lines_of(#[trigger] ds.update(d, DocModel { key: k, lines: l }), k2)
            == lines_of(ds, k2),
{
    let u = ds.update(d, DocModel { key: k, lines: l });
    assert forall|a: int, b: int| 0 <= a < b < u.len() implies u[a].key != u[b].key by {
        assert(ds[a].key != ds[b].key);
    }
    lemma_key_pos(u, k, d);
    assert forall|k2: Seq<char>| k2 != k implies lines_of(#[trigger] ds.update(
        d,
        DocModel { key: k, lines: l },
    ), k2) == lines_of(ds, k2) by {
        if has_key(ds, k2) {
            let q = key_pos(ds, k2);
            lemma_key_pos(ds, k2, q);
            lemma_key_pos(u, k2, q);
        } else {
            assert(!has_key(u, k2)) by {
                if has_key(u, k2) {
                    let q = choose|q: int| 0 <= q < u.len() && (#[trigger] u[q]).key == k2;
                    assert(ds[q].key == k2);
                }
            }
        }
    }
}

/// After lines `i..k` of a block with a one-word key, read from outside any
/// block: the document of that key holds what it held before, then the
/// block's other lines, markers and one space removed, in order; the
/// documents of other keys are unchanged; the scanner marks where the
/// block's lines begin, so a link goes to the block's second line.
pub proof fn lemma_block_appended(
    s: ScanModel,
    lines: Seq<Seq<char>>,
    i: nat,
    k: nat,
    path: Seq<char>,
    base: Seq<char>,
    run: bool,
)
    requires
        i < k <= lines.len(),
        scan_prefix(s, lines, i, path, base, run).st.phase == Phase::Idle,
        keys_distinct(scan_prefix(s, lines, i, path, base, run).docs),
        comments_between(lines, i as int, k as int),
        !contains_ws(classify(lines[i as int])->0),
    ensures
        ({
            let p = scan_prefix(s, lines, i, path, base, run);
            let r = scan_prefix(s, lines, k, path, base, run);
            let key = classify(lines[i as int])->0;
            &&& r.st.phase == Phase::Open
            &&& keys_distinct(r.docs)
            &&& has_key(r.docs, key)
            &&& r.st.doc == key_pos(r.docs, key)
            &&& r.st.start == lines_of(p.docs, key).len()
            &&& lines_of(r.docs, key) == lines_of(p.docs, key) + contents(
                lines.subrange(i as int + 1, k as int),
            )
            &&& forall|k2: Seq<char>| k2 != key ==> lines_of(r.docs, k2) == #[trigger] lines_of(
                p.docs,
                k2,
            )
        }),
    decreases k,
{
    let p = scan_prefix(s, lines, i, path, base, run);
    let key = classify(lines[i as int])->0;
    if k == i + 1 {
        assert(classify(lines[i as int]) is Some);
        lemma_with_key_distinct(p.docs, key);
        let w = with_key(p.docs, key);
        lemma_key_pos(w, key, key_pos(w, key));
        assert(contents(lines.subrange(i as int + 1, k as int)) =~= Seq::<Seq<char>>::empty());
        assert(lines_of(p.docs, key) + Seq::<Seq<char>>::empty() =~= lines_of(p.docs, key));
    } else {
        let k1 = (k - 1) as nat;
        lemma_block_appended(s, lines, i, k1, path, base, run);
        let q = scan_prefix(s, lines, k1, path, base, run);
        assert(classify(lines[k1 as int]) is Some);
        let c = classify(lines[k1 as int])->0;
        let d = q.st.doc;
        lemma_key_pos(q.docs, key, key_pos(q.docs, key));
        let l = q.docs[d].lines.push(c);
        lemma_update_lines(q.docs, d, key, l);
        assert(contents(lines.subrange(i as int + 1, k as int)) =~= contents(
            lines.subrange(i as int + 1, k1 as int),
        ).push(c));
        assert(lines_of(p.docs, key) + contents(lines.subrange(i as int + 1, k as int)) =~= (
        lines_of(p.docs, key) + contents(lines.subrange(i as int + 1, k1 as int))).push(c));
    }
}

/// No content line in `i+1..k` closes a fence.
pub open spec fn no_close_between(lines: Seq<Seq<char>>, i: int, k: int) -> bool {
    forall|m: int| i < m < k ==> trim_end(classify(#[trigger] lines[m])->0) != fence_close()
}

proof fn lemma_fence_prefix(
    s: ScanModel,
    lines: Seq<Seq<char>>,
    i: nat,
    k: nat,
    path: Seq<char>,
    base: Seq<char>,
)
    requires
        i < k <= lines.len(),
        scan_prefix(s, lines, i, path, base, true).st.phase == Phase::Open,
        !scan_prefix(s, lines, i, path, base, true).st.in_fence,
        comments_between(lines, i as int, k as int),
        trim_end(classify(lines[i as int])->0) == fence_open(),
        no_close_between(lines, i as int, k as int),
    ensures
        scan_prefix(s, lines, k, path, base, true).st.phase == Phase::Open,
        scan_prefix(s, lines, k, path, base, true).st.in_fence,
        scan_prefix(s, lines, k, path, base, true).examples == scan_prefix(
            s,
            lines,
            i,
            path,
            base,
            true,
        ).examples + contents(lines.subrange(i as int + 1, k as int)),
    decreases k,
{
    let e0 = scan_prefix(s, lines, i, path, base, true).examples;
    if k == i + 1 {
        assert(classify(lines[i as int]) is Some);
        assert(contents(lines.subrange(i as int + 1, k as int)) =~= Seq::<Seq<char>>::empty());
        assert(e0 + Seq::<Seq<char>>::empty() =~= e0);
    } else {
        lemma_fence_prefix(s, lines, i, (k - 1) as nat, path, base);
        assert(classify(lines[k - 1]) is Some);
        assert(trim_end(classify(lines[k - 1])->0) != fence_close());
        assert(contents(lines.subrange(i as int + 1, k as int)) =~= contents(lines.subrange(i as int + 1, k - 1)).push(
            classify(lines[k - 1])->0,
        ));
        assert(e0 + contents(lines.subrange(i as int + 1, k as int)) =~= (e0 + contents(
            lines.subrange(i as int + 1, k - 1),
        )).push(classify(lines[k - 1])->0));
    }
}

/// With examples on, a fence that opens at line `i` of an accepted block and
/// closes at line `j` adds the content lines between them, then one end
/// marker, to the examples.
pub proof fn lemma_fence_harvested(
    s: ScanModel,
    lines: Seq<Seq<char>>,
    i: nat,
    j: nat,
    path: Seq<char>,
    base: Seq<char>,
)
    requires
        i < j < lines.len(),
        scan_prefix(s, lines, i, path, base, true).st.phase == Phase::Open,
        !scan_prefix(s, lines, i, path, base, true).st.in_fence,
        comments_between(lines, i as int, j as int + 1),
        trim_end(classify(lines[i as int])->0) == fence_open(),
        no_close_between(lines, i as int, j as int),
        trim_end(classify(lines[j as int])->0) == fence_close(),
    ensures
        !scan_prefix(s, lines, j + 1, path, base, true).st.in_fence,
        scan_prefix(s, lines, j + 1, path, base, true).examples == (scan_prefix(
            s,
            lines,
            i,
            path,
            base,
            true,
        ).examples + contents(lines.subrange(i as int + 1, j as int))).push(end_of_example()),
{
    lemma_fence_prefix(s, lines, i, j, path, base);
    assert(classify(lines[j as int]) is Some);
}

/// With examples on, a fence that opens at line `i` and is still open when
/// the file ends adds the content lines after it and no end marker.
pub proof fn lemma_open_fence_harvested(
    s: ScanModel,
    lines: Seq<Seq<char>>,
    i: nat,
    path: Seq<char>,
    base: Seq<char>,
)
    requires
        i < lines.len(),
        scan_prefix(s, lines, i, path, base, true).st.phase == Phase::Open,
        !scan_prefix(s, lines, i, path, base, true).st.in_fence,
        comments_between(lines, i as int, lines.len() as int),
        trim_end(classify(lines[i as int])->0) == fence_open(),
        no_close_between(lines, i as int, lines.len() as int),
    ensures
        scan_prefix(s, lines, lines.len(), path, base, true).st.in_fence,
        scan_prefix(s, lines, lines.len(), path, base, true).examples == scan_prefix(
            s,
            lines,
            i,
            path,
            base,
            true,
        ).examples + contents(lines.subrange(i as int + 1, lines.len() as int)),
{
    lemma_fence_prefix(s, lines, i, lines.len(), path, base);
}

/// With examples off, no line changes the examples.
pub proof fn lemma_examples_off(
    s: ScanModel,
    line: Seq<char>,
    idx: nat,
    decl: bool,
    path: Seq<char>,
    base: Seq<char>,
)
    ensures
        step(s, line, idx, decl, path, base, false).examples == s.examples,
{
}

proof fn lemma_examples_off_prefix(
    s: ScanModel,
    lines: Seq<Seq<char>>,
    k: nat,
    path: Seq<char>,
    base: Seq<char>,
)
    ensures
        scan_prefix(s, lines, k, path, base, false).examples == s.examples,
    decreases k,
{
    if k > 0 {
        lemma_examples_off_prefix(s, lines, (k - 1) as nat, path, base);
    }
}

proof fn lemma_examples_off_files(
    docs: Seq<DocModel>,
    examples: Seq<Seq<char>>,
    files: Seq<SourceFile>,
    k: nat,
    base: Seq<char>,
)
    ensures
        scan_files(docs, examples, files, k, base, false).1 == examples,
    decreases k,
{
    if k > 0 {
        let k1 = (k - 1) as nat;
        lemma_examples_off_files(docs, examples, files, k1, base);
        let p = scan_files(docs, examples, files, k1, base, false);
        let lines = strings(files[k1 as int].lines@);
        lemma_examples_off_prefix(
            ScanModel { st: idle_state(), docs: p.0, examples: p.1 },
            lines,
            lines.len(),
            files[k1 as int].path@,
            base,
        );
    }
}

/// With examples off, a whole run leaves the examples as they were.
pub proof fn lemma_examples_off_run(
    docs: Seq<DocModel>,
    examples: Seq<Seq<char>>,
    files: Seq<SourceFile>,
    base: Seq<char>,
)
    ensures
        scan_files(docs, examples, files, files.len(), base, false).1 == examples,
{
    lemma_examples_off_files(docs, examples, files, files.len(), base);
}

/// Two line sequences that classify alike, line by line.
pub open spec fn classify_alike(a: Seq<Seq<char>>, b: Seq<Seq<char>>) -> bool {
    a.len() == b.len() && forall|j: int| 0 <= j < a.len() ==> classify(#[trigger] a[j]) == classify(b[j])
}

proof fn lemma_no_base_prefix(
    s: ScanModel,
    a: Seq<Seq<char>>,
    b: Seq<Seq<char>>,
    k: nat,
    pa: Seq<char>,
    pb: Seq<char>,
    base: Seq<char>,
    run: bool,
)
    requires
        base.len() == 0,
        k <= a.len(),
        classify_alike(a, b),
    ensures
        scan_prefix(s, a, k, pa, base, run) == scan_prefix(s, b, k, pb, base, run),
    decreases k,
{
    if k > 0 {
        lemma_no_base_prefix(s, a, b, (k - 1) as nat, pa, pb, base, run);
        assert(classify(a[k - 1]) == classify(b[k - 1]));
    }
}

proof fn lemma_no_base_files(
    docs: Seq<DocModel>,
    examples: Seq<Seq<char>>,
    fa: Seq<SourceFile>,
    fb: Seq<SourceFile>,
    k: nat,
    base: Seq<char>,
    run: bool,
)
    requires
        base.len() == 0,
        k <= fa.len() == fb.len(),
        forall|f: int| 0 <= f < fa.len() ==> classify_alike(
            strings(#[trigger] fa[f].lines@),
            strings(fb[f].lines@),
        ),
    ensures
        scan_files(docs, examples, fa, k, base, run) == scan_files(docs, examples, fb, k, base, run),
    decreases k,
{
    if k > 0 {
        let k1 = (k - 1) as nat;
        lemma_no_base_files(docs, examples, fa, fb, k1, base, run);
        let p = scan_files(docs, examples, fa, k1, base, run);
        let la = strings(fa[k1 as int].lines@);
        let lb = strings(fb[k1 as int].lines@);
        assert(classify_alike(la, lb));
        lemma_no_base_prefix(
            ScanModel { st: idle_state(), docs: p.0, examples: p.1 },
            la,
            lb,
            la.len(),
            fa[k1 as int].path@,
            fb[k1 as int].path@,
            base,
            run,
        );
    }
}

/// With no link base, a run depends on its files only through how each line
/// classifies: replacing a code line by any other code line, or a path by
/// another, changes no document and no example. So no line gets a link.
pub proof fn lemma_no_base_no_links(
    docs: Seq<DocModel>,
    examples: Seq<Seq<char>>,
    fa: Seq<SourceFile>,
    fb: Seq<SourceFile>,
    run: bool,
)
    requires
        fa.len() == fb.len(),
        forall|f: int| 0 <= f < fa.len() ==> classify_alike(
            strings(#[trigger] fa[f].lines@),
            strings(fb[f].lines@),
        ),
    ensures
        scan_files(docs, examples, fa, fa.len(), Seq::empty(), run) == scan_files(
            docs,
            examples,
            fb,
            fb.len(),
            Seq::empty(),
            run,
        ),
{
    lemma_no_base_files(docs, examples, fa, fb, fa.len(), Seq::empty(), run);
}

/// `b` is `a` with the rejected block at `i..j` blanked: the block starts
/// outside any block, its first line holds whitespace, it ends at a code line
/// or at the end, and `b` has empty lines in its place.
pub open spec fn blanked_block(a: Seq<Seq<char>>, b: Seq<Seq<char>>, i: int, j: int) -> bool {
    &&& a.len() == b.len()
    &&& 0 <= i < j <= a.len()
    &&& (i == 0 || classify(a[i - 1]) is None)
    &&& comments_between(a, i, j)
    &&& contains_ws(classify(a[i])->0)
    &&& (j == a.len() || classify(a[j]) is None)
    &&& forall|m: int| 0 <= m < a.len() && !(i <= m < j) ==> #[trigger] a[m] == b[m]
    &&& forall|m: int| i <= m < j ==> #[trigger] b[m] == Seq::<char>::empty()
}

proof fn lemma_blank_is_code()
    ensures
        classify(Seq::<char>::empty()) is None,
{
    let e = Seq::<char>::empty();
    assert(lead_ws(e) == 0);
    assert(trim_start(e).len() == 0);
}

proof fn lemma_blanked_prefix(
    s: ScanModel,
    a: Seq<Seq<char>>,
    b: Seq<Seq<char>>,
    i: nat,
    j: nat,
    k: nat,
    path: Seq<char>,
    base: Seq<char>,
    run: bool,
)
    requires
        s.st.phase == Phase::Idle,
        blanked_block(a, b, i as int, j as int),
        k <= a.len(),
    ensures
        k <= i ==> scan_prefix(s, a, k, path, base, run) == scan_prefix(s, b, k, path, base, run),
        i <= k ==> scan_prefix(s, a, i, path, base, run).st.phase == Phase::Idle,
        i < k <= j ==> scan_prefix(s, b, k, path, base, run) == scan_prefix(s, a, i, path, base, run),
        i < k <= j ==> scan_prefix(s, a, k, path, base, run) == (ScanModel {
            st: StateModel { phase: Phase::Skipping, ..scan_prefix(s, a, i, path, base, run).st },
            ..scan_prefix(s, a, i, path, base, run)
        }),
        j < k ==> scan_prefix(s, a, k, path, base, run) == scan_prefix(s, b, k, path, base, run),
    decreases k,
{
    lemma_blank_is_code();
    if k > 0 {
        lemma_blanked_prefix(s, a, b, i, j, (k - 1) as nat, path, base, run);
        let m = k - 1;
        if m < i || m > j {
            assert(a[m] == b[m]);
        } else if m < j {
            assert(b[m] == Seq::<char>::empty());
            assert(classify(a[m]) is Some);
        } else {
            assert(a[m] == b[m]);
            assert(classify(a[m]) is None);
        }
        if k == i {
            assert(classify(a[m]) is None);
        }
    }
}

/// A block whose first line holds whitespace leaves no trace: the file gives
/// the same documents and examples as when its lines are empty lines.
pub proof fn lemma_malformed_block_blank(
    docs: Seq<DocModel>,
    examples: Seq<Seq<char>>,
    a: Seq<Seq<char>>,
    b: Seq<Seq<char>>,
    i: nat,
    j: nat,
    path: Seq<char>,
    base: Seq<char>,
    run: bool,
)
    requires
        blanked_block(a, b, i as int, j as int),
    ensures
        scan_file_model(docs, examples, a, path, base, run) == scan_file_model(
            docs,
            examples,
            b,
            path,
            base,
            run,
        ),
{
    let s = ScanModel { st: idle_state(), docs, examples };
    lemma_blanked_prefix(s, a, b, i, j, a.len(), path, base, run);
}

} // verus!
