//! The arguments of one rasterizer invocation.

use vstd::prelude::*;
use crate::planner::{create_page_spec, ranges_text, runs};

verus! {

/// Image density, in dots per inch.
pub const IMAGE_DENSITY: &'static str = "150";

/// The box every page image is resized to fit.
pub const IMAGE_RESIZE: &'static str = "1500x1500";

/// The rasterizer's arguments for `pages` of the document at `document_path`,
/// writing into `images_directory`: the density, the document with its page
/// ranges in brackets, the resize box, and the output pattern whose `%d` the
/// rasterizer replaces by each page's zero-based index. The pattern is the
/// directory, the platform's path `separator`, and `index-%d.webp`.
pub open spec fn rasterizer_arguments(
    document_path: Seq<char>,
    images_directory: Seq<char>,
    separator: Seq<char>,
    pages: Seq<usize>,
) -> Seq<Seq<char>> {
    seq![
        "-density"@,
        IMAGE_DENSITY@,
        document_path + "["@ + ranges_text(runs(pages)) + "]"@,
        "-resize"@,
        IMAGE_RESIZE@,
        images_directory + separator + "index-%d.webp"@,
    ]
}

/// The rasterizer's arguments for one batch; see `rasterizer_arguments`.
pub fn rasterizer_args(
    document_path: &str,
    images_directory: &str,
    separator: &str,
    pages: &[usize],
) -> (r: Vec<String>)
    requires
        forall|i: int| 0 <= i < pages@.len() ==> pages@[i] >= 1,
    ensures
        r@.map_values(|s: String| s@) == rasterizer_arguments(document_path@, images_directory@, separator@, pages@),
{
    let mut source = String::from_str(document_path);
    source.append("[");
    let page_spec = create_page_spec(pages);
    source.append(page_spec.as_str());
    source.append("]");
    let mut pattern = String::from_str(images_directory);
    pattern.append(separator);
    pattern.append("index-%d.webp");
    let mut args: Vec<String> = Vec::new();
    args.push(String::from_str("-density"));
    args.push(String::from_str(IMAGE_DENSITY));
    args.push(source);
    args.push(String::from_str("-resize"));
    args.push(String::from_str(IMAGE_RESIZE));
    args.push(pattern);
    proof {
        assert(args@.map_values(|s: String| s@) =~= rasterizer_arguments(document_path@, images_directory@, separator@, pages@));
    }
    args
}

} // verus!
