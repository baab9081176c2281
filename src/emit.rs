//! Pages built from documents, and scripts built from harvested examples.

use vstd::prelude::*;
use crate::scan::{end_of_example, strings};

verus! {

/// The strings of `xs` with `sep` between each two.
pub open spec fn join_with(xs: Seq<Seq<char>>, sep: Seq<char>) -> Seq<char>
    decreases xs.len(),
{
    if xs.len() == 0 {
        Seq::<char>::empty()
    } else if xs.len() == 1 {
        xs[0]
    } else {
        join_with(xs.drop_last(), sep) + sep + xs.last()
    }
}

pub open spec fn title_prefix() -> Seq<char> {
    "---\ntitle: "@
}

/// A page: front matter that names the key, a blank line, then the lines.
pub open spec fn rendered(key: Seq<char>, lines: Seq<Seq<char>>) -> Seq<char> {
    title_prefix() + key + "\n---"@ + "\n\n"@ + join_with(lines, "\n"@)
}

/// Position of the first line break at or after `i`, or the length.
pub open spec fn line_end(t: Seq<char>, i: int) -> int
    decreases t.len() - i,
{
    if i >= t.len() || i < 0 {
        t.len() as int
    } else if t[i] == '\n' {
        i
    } else {
        line_end(t, i + 1)
    }
}

/// The title that the front matter of page `t` gives, if it has one.
pub open spec fn title_of(t: Seq<char>) -> Option<Seq<char>> {
    let n = title_prefix().len() as int;
    if t.len() >= n && t.take(n) == title_prefix() {
        Some(t.subrange(n, line_end(t, n)))
    } else {
        None
    }
}

/// The string that str::to_lowercase makes of `s`.
pub uninterp spec fn lower_of(s: Seq<char>) -> Seq<char>;

/// Relies on str::to_lowercase: the result depends on the characters alone.
#[verifier::external_body]
fn lowercase(s: &str) -> (r: String)
    ensures
        r@ == lower_of(s@),
{
    s.to_lowercase()
}

/// The name of the page file of `key`.
pub open spec fn page_file_name(key: Seq<char>) -> Seq<char> {
    lower_of(key) + ".qmd"@
}

/// The pieces of the example sequence: the finished chunks of the first `k`
/// lines and the chunk still being read.
pub open spec fn chunk_prefix(ex: Seq<Seq<char>>, k: nat) -> (Seq<Seq<Seq<char>>>, Seq<Seq<char>>)
    decreases k,
{
    if k == 0 {
        (Seq::<Seq<Seq<char>>>::empty(), Seq::<Seq<char>>::empty())
    } else {
        let k1 = (k - 1) as nat;
        let p = chunk_prefix(ex, k1);
        if ex[k1 as int] == end_of_example() {
            (p.0.push(p.1), Seq::<Seq<char>>::empty())
        } else {
            (p.0, p.1.push(ex[k1 as int]))
        }
    }
}

/// The example chunks: the lines between end markers; an unfinished last
/// chunk counts when it holds a line.
pub open spec fn chunks_of(ex: Seq<Seq<char>>) -> Seq<Seq<Seq<char>>> {
    let p = chunk_prefix(ex, ex.len());
    if p.1.len() > 0 {
        p.0.push(p.1)
    } else {
        p.0
    }
}

pub open spec fn non_empty(xs: Seq<Seq<char>>) -> Seq<Seq<char>> {
    xs.filter(|x: Seq<char>| x.len() > 0)
}

/// One chunk as a one-line script: its non-empty lines joined by `;`.
pub open spec fn script_of(chunk: Seq<Seq<char>>) -> Seq<char> {
    join_with(non_empty(chunk), ";"@)
}

fn join_strings(xs: &Vec<String>, sep: &str) -> (r: String)
    ensures
        r@ == join_with(strings(xs@), sep@),
{
    let mut r = String::new();
    let mut k: usize = 0;
    while k < xs.len()
        invariant
            k <= xs@.len(),
            r@ == join_with(strings(xs@).take(k as int), sep@),
        decreases xs@.len() - k,
    {
        let ghost names = strings(xs@);
        assert(names.take(k + 1).drop_last() =~= names.take(k as int));
        assert(names.take(k + 1).len() == k + 1);
        assert(names.take(k + 1)[k as int] == xs@[k as int]@);
        if k > 0 {
            r.append(sep);
        }
        r.append(xs[k].as_str());
        k = k + 1;
    }
    assert(strings(xs@).take(xs@.len() as int) =~= strings(xs@));
    r
}

/// The page of `key` with `lines` as its body.
pub fn render_document(key: &str, lines: &Vec<String>) -> (r: String)
    ensures
        r@ == rendered(key@, strings(lines@)),
{
    let mut r = String::from_str("---\ntitle: ");
    r.append(key);
    r.append("\n---");
    r.append("\n\n");
    let body = join_strings(lines, "\n");
    r.append(body.as_str());
    r
}

/// The title in the front matter of `text`, if it has one.
pub fn parse_title(text: &str) -> (r: Option<String>)
    ensures
        r matches Some(t) ==> title_of(text@) == Some(t@),
        r is None ==> title_of(text@) is None,
{
    let prefix = "---\ntitle: ";
    proof {
        reveal_strlit("---\ntitle: ");
    }
    assert(prefix@ == title_prefix());
    let n = text.unicode_len();
    let m = prefix.unicode_len();
    if n < m {
        return None;
    }
    let mut i: usize = 0;
    while i < m
        invariant
            m == prefix@.len(),
            prefix@ == title_prefix(),
            m <= n == text@.len(),
            i <= m,
            forall|j: int| 0 <= j < i ==> text@[j] == prefix@[j],
        decreases m - i,
    {
        if text.get_char(i) != prefix.get_char(i) {
            assert(text@.take(m as int)[i as int] != prefix@[i as int]);
            assert(text@.take(m as int) != title_prefix());
            return None;
        }
        i = i + 1;
    }
    assert(text@.take(m as int) =~= title_prefix());
    let mut e: usize = m;
    while e < n
        invariant
            m <= e <= n == text@.len(),
            m == title_prefix().len(),
            text@.take(m as int) == title_prefix(),
            line_end(text@, m as int) == line_end(text@, e as int),
        decreases n - e,
    {
        if text.get_char(e) == '\n' {
            assert(line_end(text@, e as int) == e);
            return Some(String::from_str(text.substring_char(m, e)));
        }
        e = e + 1;
    }
    assert(line_end(text@, e as int) == e);
    Some(String::from_str(text.substring_char(m, e)))
}

proof fn lemma_line_end(t: Seq<char>, from: int, to: int)
    requires
        0 <= from <= to < t.len(),
        t[to] == '\n',
        forall|j: int| from <= j < to ==> t[j] != '\n',
    ensures
        line_end(t, from) == to,
    decreases to - from,
{
    if from < to {
        lemma_line_end(t, from + 1, to);
    }
}

/// Re-reading the front matter of a rendered page gives back its key, for a
/// key without a line break (a one-word key has none).
pub proof fn lemma_title_round_trip(key: Seq<char>, lines: Seq<Seq<char>>)
    requires
        forall|i: int| 0 <= i < key.len() ==> key[i] != '\n',
    ensures
        title_of(rendered(key, lines)) == Some(key),
{
    reveal_strlit("---\ntitle: ");
    reveal_strlit("\n---");
    let t = rendered(key, lines);
    let n = title_prefix().len() as int;
    assert(t.take(n) =~= title_prefix());
    let to = n + key.len();
    assert(t[to] == '\n');
    assert forall|j: int| n <= j < to implies t[j] != '\n' by {
        assert(t[j] == key[j - n]);
    }
    lemma_line_end(t, n, to);
    assert(t.subrange(n, to) =~= key);
}

/// The name of the page file of `key`: the key in lower case, with `.qmd`.
pub fn page_file(key: &str) -> (r: String)
    ensures
        r@ == page_file_name(key@),
{
    let mut r = lowercase(key);
    r.append(".qmd");
    r
}

/// The name of the hidden project folder made for `folder`.
pub fn hidden_folder(folder: &str) -> (r: String)
    ensures
        r@ == "_"@ + folder@,
{
    let mut r = String::from_str("_");
    r.append(folder);
    r
}

/// The harvested example lines cut into chunks at the end markers.
pub fn example_chunks(examples: &Vec<String>) -> (r: Vec<Vec<String>>)
    ensures
        r@.map_values(|c: Vec<String>| strings(c@)) == chunks_of(strings(examples@)),
{
    let ghost ex = strings(examples@);
    let mut done: Vec<Vec<String>> = Vec::new();
    let mut cur: Vec<String> = Vec::new();
    let marker = "***end_of_example";
    let mut k: usize = 0;
    while k < examples.len()
        invariant
            k <= examples@.len(),
            ex == strings(examples@),
            marker@ == end_of_example(),
            (done@.map_values(|c: Vec<String>| strings(c@)), strings(cur@)) == chunk_prefix(
                ex,
                k as nat,
            ),
        decreases examples@.len() - k,
    {
        let ghost d0 = done@.map_values(|c: Vec<String>| strings(c@));
        let ghost c0 = strings(cur@);
        let line = &examples[k];
        if str_eq(line.as_str(), marker) {
            let finished = cur;
            cur = Vec::new();
            done.push(finished);
            assert(done@.map_values(|c: Vec<String>| strings(c@)) =~= d0.push(c0));
            assert(strings(cur@) =~= Seq::<Seq<char>>::empty());
        } else {
            cur.push(line.clone());
            assert(strings(cur@) =~= c0.push(ex[k as int]));
        }
        k = k + 1;
    }
    assert(examples@.len() == ex.len());
    if cur.len() > 0 {
        let ghost d0 = done@.map_values(|c: Vec<String>| strings(c@));
        let ghost c0 = strings(cur@);
        done.push(cur);
        assert(done@.map_values(|c: Vec<String>| strings(c@)) =~= d0.push(c0));
    }
    done
}

fn str_eq(a: &str, b: &str) -> (r: bool)
    ensures
        r == (a@ == b@),
{
    let n = a.unicode_len();
    if n != b.unicode_len() {
        return false;
    }
    let mut i: usize = 0;
    while i < n
        invariant
            n == a@.len() == b@.len(),
            i <= n,
            forall|j: int| 0 <= j < i ==> a@[j] == b@[j],
        decreases n - i,
    {
        if a.get_char(i) != b.get_char(i) {
            return false;
        }
        i = i + 1;
    }
    assert(a@ =~= b@);
    true
}

/// The script of one example chunk.
pub fn example_script(chunk: &Vec<String>) -> (r: String)
    ensures
        r@ == script_of(strings(chunk@)),
{
    let mut kept: Vec<String> = Vec::new();
    let mut k: usize = 0;
    while k < chunk.len()
        invariant
            k <= chunk@.len(),
            strings(kept@) == non_empty(strings(chunk@).take(k as int)),
        decreases chunk@.len() - k,
    {
        let ghost all = strings(chunk@);
        assert(all.take(k + 1).drop_last() =~= all.take(k as int));
        reveal(Seq::filter);
        if chunk[k].unicode_len() > 0 {
            kept.push(chunk[k].clone());
        }
        assert(strings(kept@) =~= non_empty(all.take(k + 1)));
        k = k + 1;
    }
    assert(strings(chunk@).take(chunk@.len() as int) =~= strings(chunk@));
    join_strings(&kept, ";")
}

} // verus!
