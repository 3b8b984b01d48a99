//! The records that the stages of the document workflow hand to one another.

use vstd::prelude::*;
use crate::text::{decimal, join_numbers, join_path, joined, path_join, push_decimal};

verus! {

pub struct ExtractDocumentImagesStage {
    pub document_path: String,
    pub data_directory: String,
    pub images_directory: String,
}

pub struct ExtractDocumentImagesStageSuccess {
    pub document_path: String,
    pub data_directory: String,
    pub images_directory: String,
    pub document_clone_path: String,
}

pub struct ExtractDocumentImagesStageError {
    pub document_path: String,
    pub data_directory: String,
    pub images_directory: String,
    pub error_message: String,
}

pub struct PagePreprocessStage {
    pub id: String,
    pub selected_pages: Vec<u32>,
    pub data_directory: String,
    pub images_directory: String,
}

#[derive(Clone)]
pub struct PagePreprocessStageResult {
    pub dates: Vec<Date>,
    pub type_label: String,
    pub type_abbr: String,
    pub summary: String,
    pub suggested_file_name: String,
}

#[derive(Clone)]
pub struct Date {
    pub date: String,
    pub description: String,
}

pub struct PagePreprocessStageSuccess {
    pub id: String,
    pub selected_pages: Vec<u32>,
    pub data_directory: String,
    pub images_directory: String,
    pub page_preprocess_stage_result: PagePreprocessStageResult,
    pub page_number_prefix: String,
}

pub struct PagePreprocessStageError {
    pub id: String,
    pub selected_pages: Vec<u32>,
    pub data_directory: String,
    pub images_directory: String,
    pub error_message: String,
}

pub struct DocumentProcessStage {
    pub id: String,
    pub selected_pages: Vec<u32>,
    pub data_directory: String,
    pub images_directory: String,
    pub document_path: String,
    pub file_name: String,
    pub page_preprocess_stage_result: PagePreprocessStageResult,
    pub page_number_prefix: String,
}

pub struct DocumentProcessStageSuccess {
    pub id: String,
    pub selected_pages: Vec<u32>,
    pub data_directory: String,
    pub images_directory: String,
    pub document_path: String,
    pub file_name: String,
    pub page_preprocess_stage_result: PagePreprocessStageResult,
    pub page_number_prefix: String,
}

pub struct DocumentProcessStageError {
    pub id: String,
    pub selected_pages: Vec<u32>,
    pub data_directory: String,
    pub images_directory: String,
    pub document_path: String,
    pub file_name: String,
    pub page_preprocess_stage_result: PagePreprocessStageResult,
    pub page_number_prefix: String,
    pub error_message: String,
}

pub struct FinishedDocumentProcessStage {
    pub id: String,
    pub selected_pages: Vec<u32>,
    pub data_directory: String,
    pub images_directory: String,
    pub page_preprocess_stage_result: PagePreprocessStageResult,
    pub document_path: String,
    pub file_name: String,
    pub file_name_history: Vec<String>,
}

/// The image file of the one-based page `page` inside `images_directory`.
pub open spec fn page_image_path(images_directory: Seq<char>, page: u32) -> Seq<char> {
    path_join(images_directory, decimal(page as nat) + ".webp"@)
}

impl PagePreprocessStage {
    /// The image file of each selected page, in order.
    pub fn get_pages_paths(&self) -> (r: Vec<String>)
        ensures
            r@.len() == self.selected_pages@.len(),
            forall|i: int| 0 <= i < r@.len() ==> #[trigger] r@[i]@ == page_image_path(
                self.images_directory@,
                self.selected_pages@[i],
            ),
    {
        let mut paths: Vec<String> = Vec::new();
        let mut i: usize = 0;
        while i < self.selected_pages.len()
            invariant
                i <= self.selected_pages@.len(),
                paths@.len() == i,
                forall|k: int| 0 <= k < i ==> #[trigger] paths@[k]@ == page_image_path(
                    self.images_directory@,
                    self.selected_pages@[k],
                ),
            decreases self.selected_pages@.len() - i,
        {
            let mut name = String::new();
            push_decimal(&mut name, self.selected_pages[i] as usize);
            name.append(".webp");
            let path = join_path(self.images_directory.as_str(), name.as_str());
            paths.push(path);
            i = i + 1;
        }
        paths
    }

    /// The directory that holds the selected pages as one document: named by the
    /// page numbers joined with `-`, inside the images directory. Creating it is
    /// left to the caller.
    pub fn get_document_directory(&self) -> (r: String)
        ensures
            r@ == path_join(self.images_directory@, joined(self.selected_pages@, "-"@)),
    {
        let name = join_numbers(&self.selected_pages, "-");
        join_path(self.images_directory.as_str(), name.as_str())
    }
}

/// The prefix that names a document by its pages: `p-` and the page numbers
/// joined with `-`.
pub fn page_number_prefix(selected_pages: &Vec<u32>) -> (r: String)
    ensures
        r@ == "p-"@ + joined(selected_pages@, "-"@),
{
    let mut s = String::new();
    s.append("p-");
    let pages = join_numbers(selected_pages, "-");
    s.append(pages.as_str());
    s
}

/// The file name of the document made of the selected pages: the page prefix,
/// `-`, the suggested name and `.pdf`.
pub fn document_file_name(page_number_prefix: &str, suggested_file_name: &str) -> (r: String)
    ensures
        r@ == page_number_prefix@ + "-"@ + suggested_file_name@ + ".pdf"@,
{
    let mut s = String::from_str(page_number_prefix);
    s.append("-");
    s.append(suggested_file_name);
    s.append(".pdf");
    s
}

} // verus!
