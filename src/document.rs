//! The source document's page count.

use vstd::prelude::*;

verus! {

#[verifier::external_type_specification]
#[verifier::external_body]
pub struct ExPdfError(lopdf::Error);

/// Relies on lopdf's `Document::load_mem`, which parses the bytes as a PDF
/// document, and on `Document::get_pages`, whose entries are the document's
/// pages. Nothing is promised of the count: with parallel parsing, which of two
/// object streams that both hold an object wins can differ between loads.
#[verifier::external_body]
fn parse_page_count(bytes: &[u8]) -> (r: Result<usize, lopdf::Error>) {
    lopdf::Document::load_mem(bytes).map(|document| document.get_pages().len())
}

/// Relies on the `Display` impl of lopdf's `Error` for a description of it.
#[verifier::external_body]
fn describe_pdf_error(error: &lopdf::Error) -> (r: String) {
    error.to_string()
}

/// The source document could not be read as a PDF document.
pub struct DocumentError {
    pub reason: String,
}

impl DocumentError {
    /// The text that reports the error.
    pub fn message(&self) -> (r: String)
        ensures
            r@ == "Failed to load PDF: "@ + self.reason@,
    {
        let mut s = String::new();
        s.append("Failed to load PDF: ");
        s.append(self.reason.as_str());
        s
    }
}

/// The number of pages of the PDF document in `bytes`, as lopdf counts them; an
/// error where lopdf cannot parse the bytes.
pub fn document_page_count(bytes: &[u8]) -> (r: Result<usize, DocumentError>) {
    match parse_page_count(bytes) {
        Ok(n) => Ok(n),
        Err(e) => Err(DocumentError { reason: describe_pdf_error(&e) }),
    }
}

} // verus!
