//! The page count of a PDF document, read by `lopdf`.
use vstd::prelude::*;

verus! {

/// The number of pages `lopdf` finds in a PDF document given as bytes;
/// `Err` with `lopdf`'s message when the bytes do not load as a PDF.
pub uninterp spec fn pdf_page_count(bytes: Seq<u8>) -> Result<nat, Seq<char>>;

/// `lopdf::Document::load_mem`, then the length of `get_pages()`.
/// Trusted: the result is the named one.
#[verifier::external_body]
pub fn count_pdf_pages(bytes: &[u8]) -> (r: Result<usize, String>)
    ensures
        match (r, pdf_page_count(bytes@)) {
            (Ok(n), Ok(m)) => n as nat == m,
            (Err(e), Err(m)) => e@ == m,
            _ => false,
        },
{
    match lopdf::Document::load_mem(bytes) {
        Ok(doc) => Ok(doc.get_pages().len()),
        Err(e) => Err(e.to_string()),
    }
}

/// Why a page count fails.
#[derive(Debug, Clone, PartialEq, Eq)]
pub enum PageCountError {
    /// The document does not load; `lopdf`'s message.
    Lopdf(String),
    /// The document has no page; the document's name.
    EmptyPdf(String),
}

/// The page count of the document `name` with contents `bytes`: an error
/// when it does not load or has no page.
pub fn page_count_of(name: &str, bytes: &[u8]) -> (r: Result<usize, PageCountError>)
    ensures
        match pdf_page_count(bytes@) {
            Err(m) => r matches Err(PageCountError::Lopdf(e)) && e@ == m,
            Ok(n) => if n == 0 {
                r matches Err(PageCountError::EmptyPdf(x)) && x@ == name@
            } else {
                r matches Ok(k) && k as nat == n
            },
        },
{
    match count_pdf_pages(bytes) {
        Err(e) => Err(PageCountError::Lopdf(e)),
        Ok(0) => Err(PageCountError::EmptyPdf(name.to_owned())),
        Ok(n) => Ok(n),
    }
}

} // verus!
