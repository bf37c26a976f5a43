//! Links into PDF documents (`paper.pdf#page=12`,
//! `paper.pdf#annotation=<id>`) and PDF paths.
use vstd::prelude::*;

use crate::fs::{extension_bounds, extension_of, file_name};
use crate::number::{parse_usize, parse_usize_spec};
use crate::text::{chars_of, lowercase, lowercase_is, string_of, to_lowercase};

verus! {

broadcast use vstd::string::group_string_axioms;

/// Where in a PDF a link points.
#[derive(Debug, PartialEq, Eq)]
pub enum PdfLinkTarget {
    Page(usize),
    Annotation(String),
}

/// What a link target holds.
pub enum PdfTargetView {
    Page(usize),
    Annotation(Seq<char>),
}

impl View for PdfLinkTarget {
    type V = PdfTargetView;

    open spec fn view(&self) -> PdfTargetView {
        match self {
            PdfLinkTarget::Page(n) => PdfTargetView::Page(*n),
            PdfLinkTarget::Annotation(id) => PdfTargetView::Annotation(id@),
        }
    }
}

impl Clone for PdfLinkTarget {
    fn clone(&self) -> (r: Self)
        ensures
            r == *self,
    {
        match self {
            PdfLinkTarget::Page(n) => PdfLinkTarget::Page(*n),
            PdfLinkTarget::Annotation(id) => PdfLinkTarget::Annotation(id.clone()),
        }
    }
}

/// The index of the first `c` in `s`, or -1.
pub open spec fn first_index(s: Seq<char>, c: char, i: int) -> int
    decreases s.len() - i,
{
    if i < 0 || i >= s.len() {
        -1
    } else if s[i] == c {
        i
    } else {
        first_index(s, c, i + 1)
    }
}

/// `s` begins with `p`.
pub open spec fn starts_with(s: Seq<char>, p: Seq<char>) -> bool {
    s.len() >= p.len() && s.take(p.len() as int) == p
}

/// `s` ends with `p`.
pub open spec fn ends_with(s: Seq<char>, p: Seq<char>) -> bool {
    s.len() >= p.len() && s.skip(s.len() - p.len()) == p
}

/// `page=`
pub open spec fn page_prefix() -> Seq<char> {
    seq!['p', 'a', 'g', 'e', '=']
}

/// `annotation=`
pub open spec fn annotation_prefix() -> Seq<char> {
    seq!['a', 'n', 'n', 'o', 't', 'a', 't', 'i', 'o', 'n', '=']
}

/// A link `file#fragment` into a PDF: the file (before the first `#`)
/// must end in `.pdf` in any case, and the fragment is `page=` with a page
/// number from 1 on, or `annotation=` with a non-empty id.
pub open spec fn parse_pdf_link_spec(t: Seq<char>) -> Option<(Seq<char>, PdfTargetView)> {
    let h = first_index(t, '#', 0);
    if h < 0 {
        None
    } else {
        let file = t.take(h);
        let fragment = t.skip(h + 1);
        if !ends_with(lowercase(file), seq!['.', 'p', 'd', 'f']) {
            None
        } else if starts_with(fragment, page_prefix()) {
            match parse_usize_spec(fragment.skip(5)) {
                Some(n) => if n > 0 {
                    Some((file, PdfTargetView::Page(n as usize)))
                } else {
                    None
                },
                None => None,
            }
        } else if starts_with(fragment, annotation_prefix()) && fragment.len() > 11 {
            Some((file, PdfTargetView::Annotation(fragment.skip(11))))
        } else {
            None
        }
    }
}

/// Whether `s[from..]` begins with `p`.
fn has_prefix_at(s: &Vec<char>, from: usize, p: &str) -> (r: bool)
    requires
        from <= s@.len(),
    ensures
        r == starts_with(s@.skip(from as int), p@),
{
    let n = p.unicode_len();
    let len = s.len();
    if len - from < n {
        return false;
    }
    let mut i: usize = 0;
    while i < n
        invariant
            n == p@.len(),
            len == s@.len(),
            from + n <= s@.len(),
            i <= n,
            forall|j: int| 0 <= j < i ==> s@[from + j] == p@[j],
        decreases n - i,
    {
        if s[from + i] != p.get_char(i) {
            assert(s@.skip(from as int).take(n as int)[i as int] == s@[from + i]);
            return false;
        }
        i = i + 1;
    }
    assert(s@.skip(from as int).take(n as int) =~= p@);
    true
}

/// Parse a link into a PDF: the file and the page or annotation it points
/// to. `None` when the link has no fragment, the file is not a PDF, the page
/// is not a number from 1 on, or the annotation id is empty.
pub fn parse_pdf_link(target: &str) -> (r: Option<(&str, PdfLinkTarget)>)
    ensures
        match r {
            Some((file, t)) => parse_pdf_link_spec(target@) == Some((file@, t@)),
            None => parse_pdf_link_spec(target@) is None,
        },
{
    let cs = chars_of(target);
    let n = cs.len();
    let mut h: usize = 0;
    while h < n && cs[h] != '#'
        invariant
            cs@ == target@,
            n == cs@.len(),
            h <= n,
            first_index(target@, '#', h as int) == first_index(target@, '#', 0),
        decreases n - h,
    {
        h = h + 1;
    }
    if h >= n {
        return None;
    }
    let file = target.substring_char(0, h);
    let lower = to_lowercase(file);
    let lc = chars_of(lower.as_str());
    proof {
        reveal_strlit(".pdf");
        assert(".pdf"@ =~= seq!['.', 'p', 'd', 'f']);
        reveal_strlit("page=");
        assert("page="@ =~= page_prefix());
        reveal_strlit("annotation=");
        assert("annotation="@ =~= annotation_prefix());
        assert(file@ =~= target@.take(h as int));
    }
    let is_pdf = lc.len() >= 4 && has_prefix_at(&lc, lc.len() - 4, ".pdf");
    proof {
        if lc@.len() >= 4 {
            assert(lc@.skip(lc@.len() - 4).take(4) =~= lc@.skip(lc@.len() - 4));
        }
    }
    if !is_pdf {
        return None;
    }
    let frag = h + 1;
    proof {
        assert(target@.skip(frag as int) =~= cs@.skip(frag as int));
    }
    if has_prefix_at(&cs, frag, "page=") {
        assert(cs@.skip(frag as int).skip(5) =~= cs@.skip(frag + 5));
        let digits = crate::code_edit::fence::copy_range(&cs, frag + 5, n);
        assert(digits@ =~= cs@.skip(frag + 5));
        return match parse_usize(&digits) {
            Some(page) => if page > 0 {
                Some((file, PdfLinkTarget::Page(page)))
            } else {
                None
            },
            None => None,
        };
    }
    if has_prefix_at(&cs, frag, "annotation=") && n - frag > 11 {
        assert(cs@.skip(frag as int).skip(11) =~= cs@.skip(frag + 11));
        let id = crate::code_edit::fence::copy_range(&cs, frag + 11, n);
        assert(id@ =~= cs@.skip(frag + 11));
        return Some((file, PdfLinkTarget::Annotation(string_of(&id))));
    }
    None
}

/// The file a path names has the extension `pdf`, in any case.
pub open spec fn is_pdf_path_spec(path: Seq<char>) -> bool {
    match file_name(path) {
        Some(n) => match extension_of(n) {
            Some(e) => lowercase_is(e, seq!['p', 'd', 'f']),
            None => false,
        },
        None => false,
    }
}

/// Whether a path names a PDF file.
pub fn is_pdf_path(path: &str) -> (r: bool)
    ensures
        r == is_pdf_path_spec(path@),
{
    let p = chars_of(path);
    match extension_bounds(&p) {
        Some((s, e)) => {
            let ext = crate::code_edit::fence::copy_range(&p, s, e);
            proof {
                reveal_strlit("pdf");
                assert("pdf"@ =~= seq!['p', 'd', 'f']);
            }
            crate::text::lowercase_equals(&ext, "pdf")
        },
        None => false,
    }
}

} // verus!
