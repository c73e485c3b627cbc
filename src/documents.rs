//! Documents as the grader sees them.
use vstd::prelude::*;
use crate::api::FileInfo;
use crate::text::{chars_of, lower_of, lower_chars, same_chars, split_words, words};

verus! {

/// Text extracted from an imported file.
pub struct DocumentData {
    pub filename: String,
    pub text: String,
    pub file_type: String,
    pub word_count: u32,
    pub hash: String,
}

#[derive(Clone, Copy, Debug, PartialEq, Eq, Structural)]
pub enum DocumentType {
    Word,
    Pdf,
    Text,
}

pub struct Document {
    pub path: String,
    pub content: String,
    pub file_type: DocumentType,
}

pub const CONTENT_PLACEHOLDER: &'static str = "Document content placeholder";

/// A document record for `path`; its content is a placeholder until the
/// file formats are read.
pub fn read_document(path: &str) -> (r: Result<Document, String>)
    ensures
        r is Ok,
        r->Ok_0.path@ == path@,
        r->Ok_0.content@ == CONTENT_PLACEHOLDER@,
        r->Ok_0.file_type == DocumentType::Word,
{
    Ok(Document {
        path: String::from_str(path),
        content: String::from_str(CONTENT_PLACEHOLDER),
        file_type: DocumentType::Word,
    })
}

/// The number of whitespace-separated words, as a `u32` (wrapping).
pub fn count_words(text: &str) -> (r: u32)
    ensures
        r == words(text@).len() as u32,
{
    let ws = split_words(&chars_of(text));
    ws.len() as u32
}

/// File kinds offered for import: Word, PDF and plain text, whatever the
/// case of the extension.
pub open spec fn listed_extension(ext: Seq<char>) -> bool {
    lower_of(ext) == "docx"@ || lower_of(ext) == "doc"@ || lower_of(ext) == "pdf"@ || lower_of(ext) == "txt"@
}

/// Whether a file with this extension is listed for import.
pub fn is_listed_extension(ext: &str) -> (r: bool)
    ensures
        r == listed_extension(ext@),
{
    let l = lower_chars(&chars_of(ext));
    same_chars(&l, &chars_of("docx")) || same_chars(&l, &chars_of("doc")) || same_chars(&l, &chars_of("pdf"))
        || same_chars(&l, &chars_of("txt"))
}

/// Whether the extension names a Word document in the `.docx` format.
pub fn is_docx_extension(ext: &str) -> (r: bool)
    ensures
        r == (lower_of(ext@) == "docx"@),
{
    let l = lower_chars(&chars_of(ext));
    same_chars(&l, &chars_of("docx"))
}

/// `a` does not come after `b` in code-point order, character by character.
pub open spec fn name_le(a: Seq<char>, b: Seq<char>) -> bool
    decreases a.len(),
{
    if a.len() == 0 {
        true
    } else if b.len() == 0 {
        false
    } else if a[0] != b[0] {
        a[0] < b[0]
    } else {
        name_le(a.drop_first(), b.drop_first())
    }
}

pub proof fn lemma_name_le_total(a: Seq<char>, b: Seq<char>)
    ensures
        name_le(a, b) || name_le(b, a),
    decreases a.len(),
{
    if a.len() > 0 && b.len() > 0 && a[0] == b[0] {
        lemma_name_le_total(a.drop_first(), b.drop_first());
    }
}

pub proof fn lemma_name_le_trans(a: Seq<char>, b: Seq<char>, c: Seq<char>)
    requires
        name_le(a, b),
        name_le(b, c),
    ensures
        name_le(a, c),
    decreases a.len(),
{
    if a.len() > 0 && b.len() > 0 && c.len() > 0 && a[0] == b[0] && b[0] == c[0] {
        lemma_name_le_trans(a.drop_first(), b.drop_first(), c.drop_first());
    }
}

fn name_le_exec(a: &Vec<char>, b: &Vec<char>) -> (r: bool)
    ensures
        r == name_le(a@, b@),
{
    let n: usize = a.len();
    let m: usize = b.len();
    let mut i: usize = 0;
    assert(a@.subrange(0, n as int) =~= a@);
    assert(b@.subrange(0, m as int) =~= b@);
    while i < n && i < m && a[i] == b[i]
        invariant
            n == a@.len(),
            m == b@.len(),
            i <= n,
            i <= m,
            name_le(a@, b@) == name_le(a@.subrange(i as int, n as int), b@.subrange(i as int, m as int)),
        decreases n - i,
    {
        assert(a@.subrange(i as int, n as int).drop_first() =~= a@.subrange(i + 1, n as int));
        assert(b@.subrange(i as int, m as int).drop_first() =~= b@.subrange(i + 1, m as int));
        i += 1;
    }
    assert(a@.subrange(0, n as int) =~= a@);
    assert(b@.subrange(0, m as int) =~= b@);
    if i == n {
        true
    } else if i == m {
        false
    } else {
        a[i] < b[i]
    }
}

pub open spec fn names_sorted(s: Seq<FileInfo>) -> bool {
    forall|i: int, j: int| 0 <= i < j < s.len() ==> name_le(s[i].name@, s[j].name@)
}

/// The files ordered by name; files of equal name keep their order.
pub fn sort_files_by_name(files: Vec<FileInfo>) -> (r: Vec<FileInfo>)
    ensures
        names_sorted(r@),
        r@.to_multiset() == files@.to_multiset(),
{
    broadcast use vstd::seq_lib::group_to_multiset_ensures;

    let ghost orig = files@;
    let n: usize = files.len();
    let mut rest = files;
    let mut r: Vec<FileInfo> = Vec::new();
    let mut i: usize = 0;
    while i < n
        invariant
            n == orig.len(),
            i <= n,
            rest@ == orig.subrange(i as int, n as int),
            names_sorted(r@),
            r@.to_multiset() == orig.subrange(0, i as int).to_multiset(),
        decreases n - i,
    {
        let x = rest.remove(0);
        assert(x == orig[i as int]);
        let xn = chars_of(x.name.as_str());
        let mut p: usize = 0;
        while p < r.len() && name_le_exec(&chars_of(r[p].name.as_str()), &xn)
            invariant
                p <= r@.len(),
                xn@ == x.name@,
                forall|k: int| 0 <= k < p ==> name_le(#[trigger] r@[k].name@, x.name@),
            decreases r@.len() - p,
        {
            p += 1;
        }
        let ghost old_r = r@;
        let ghost xg = x;
        r.insert(p, x);
        proof {
            assert(r@ == old_r.insert(p as int, xg));
            vstd::seq_lib::to_multiset_insert(old_r, p as int, x);
            assert(orig.subrange(0, i + 1) =~= orig.subrange(0, i as int).push(xg));
            vstd::seq_lib::to_multiset_build(orig.subrange(0, i as int), xg);
            if p < old_r.len() {
                assert(!name_le(old_r[p as int].name@, x.name@));
                lemma_name_le_total(old_r[p as int].name@, x.name@);
            }
            assert forall|a: int, b: int| 0 <= a < b < r@.len() implies name_le(r@[a].name@, r@[b].name@) by {
                let ra = if a < p { old_r[a] } else if a == p { x } else { old_r[a - 1] };
                let rb = if b < p { old_r[b] } else if b == p { x } else { old_r[b - 1] };
                assert(r@[a] == ra);
                assert(r@[b] == rb);
                if b > p {
                    if a == p {
                        if b - 1 > p {
                            lemma_name_le_trans(x.name@, old_r[p as int].name@, old_r[b - 1].name@);
                        }
                    } else if a < p {
                        if b - 1 == p {
                            lemma_name_le_trans(old_r[a].name@, x.name@, old_r[p as int].name@);
                        } else {
                            lemma_name_le_trans(old_r[a].name@, x.name@, old_r[p as int].name@);
                            lemma_name_le_trans(old_r[a].name@, old_r[p as int].name@, old_r[b - 1].name@);
                        }
                    }
                }
            }
        }
        i += 1;
    }
    assert(orig.subrange(0, n as int) =~= orig);
    r
}

} // verus!
