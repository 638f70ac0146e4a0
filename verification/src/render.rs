//! From the SVG document to the bytes of a PNG picture. The drawing itself
//! is the work of `usvg`, `resvg` and `tiny_skia`; this module leads a
//! document of this library through them.
//!
//! Only documents that [`crate::image`] lays out are drawn. They have a
//! fixed header and hold five short texts, so the drawing crates take every
//! one of them and none of the steps can fail.
use vstd::prelude::*;
use crate::image::{all_angles, challenge_svg, is_challenge_document, GLYPHS};
use crate::record::MAX_ANSWER;

verus! {

/// The width of a picture in pixels, as the header of its document has it.
pub const CANVAS_WIDTH: u32 = 280;

/// The height of a picture in pixels, as the header of its document has it.
pub const CANVAS_HEIGHT: u32 = 100;

/// The longest side, in pixels, for which the drawing steps are used.
pub const MAX_SIDE: u32 = 8192;

/// `usvg::Tree`, carried as an opaque value.
#[verifier::external_type_specification]
#[verifier::external_body]
pub struct ExTree(usvg::Tree);

/// `usvg::fontdb::Database`, carried as an opaque value.
#[verifier::external_type_specification]
#[verifier::external_body]
pub struct ExDatabase(usvg::fontdb::Database);

/// `tiny_skia::Pixmap`, carried as an opaque value.
#[verifier::external_type_specification]
#[verifier::external_body]
pub struct ExPixmap(tiny_skia::Pixmap);

/// Neither side is zero or beyond [`MAX_SIDE`].
pub open spec fn fits(width: u32, height: u32) -> bool {
    1 <= width <= MAX_SIDE && 1 <= height <= MAX_SIDE
}

/// The sides in whole pixels, width first, of a tree.
pub uninterp spec fn tree_sides(tree: usvg::Tree) -> (u32, u32);

/// The tree holds nothing but texts or their outlines: no image, filter,
/// mask, clip path or marker.
pub uninterp spec fn holds_text_only(tree: usvg::Tree) -> bool;

/// The sides, width first, that a canvas was made with.
pub uninterp spec fn canvas_sides(canvas: tiny_skia::Pixmap) -> (u32, u32);

/// The four bytes of `n`, the most significant first.
pub open spec fn big_endian(n: u32) -> Seq<u8> {
    seq![
        (n / 0x100_0000) as u8,
        (n / 0x1_0000 % 0x100) as u8,
        (n / 0x100 % 0x100) as u8,
        (n % 0x100) as u8,
    ]
}

/// How a PNG file of these sides begins: the eight bytes of the signature,
/// the length and the name of the header chunk, then the width and the
/// height.
pub open spec fn png_start(width: u32, height: u32) -> Seq<u8> {
    seq![137u8, 80, 78, 71, 13, 10, 26, 10, 0, 0, 0, 13, 73, 72, 68, 82] + big_endian(width)
        + big_endian(height)
}

/// `bytes` begin as a PNG file of these sides does.
pub open spec fn is_png_of(bytes: Seq<u8>, width: u32, height: u32) -> bool {
    bytes.len() >= 24 && bytes.subrange(0, 24) == png_start(width, height)
}

/// Calls `usvg::Tree::from_str` with the default options.
///
/// Trusted: a document that this library lays out is taken. It is well
/// formed, at most some hundred characters long, and names no file. Its
/// header gives the width and the height as plain numbers, which `usvg`
/// reads as the size of the tree; below the root it holds five texts and
/// nothing else.
#[verifier::external_body]
fn parse_svg(svg: &str) -> (r: Option<usvg::Tree>)
    requires
        is_challenge_document(svg@),
    ensures
        r is Some,
        r matches Some(tree) ==> tree_sides(tree) == (CANVAS_WIDTH, CANVAS_HEIGHT),
        r matches Some(tree) ==> holds_text_only(tree),
{
    usvg::Tree::from_str(svg, &usvg::Options::default()).ok()
}

/// Calls `usvg::Tree::postprocess`, asking for text to be turned into
/// outlines with the faces of `fonts`.
///
/// Trusted: the sides of the tree stay, and it still holds nothing but
/// texts and their outlines; `postprocess` works on the nodes below the
/// root and leaves the size alone.
#[verifier::external_body]
fn outline_text(tree: &mut usvg::Tree, fonts: &usvg::fontdb::Database)
    requires
        holds_text_only(*old(tree)),
    ensures
        tree_sides(*final(tree)) == tree_sides(*old(tree)),
        holds_text_only(*final(tree)),
{
    tree.postprocess(usvg::PostProcessingSteps { convert_text_into_paths: true }, fonts)
}

/// Reads the size of the tree in whole pixels, by `Size::to_int_size` on
/// its `size`.
///
/// Trusted: these are the sides of the tree.
#[verifier::external_body]
fn pixel_size(tree: &usvg::Tree) -> (size: (u32, u32))
    ensures
        size == tree_sides(*tree),
{
    let size = tree.size.to_int_size();
    (size.width(), size.height())
}

/// Calls `tiny_skia::Pixmap::new`.
///
/// Trusted: for sides that are neither zero nor beyond [`MAX_SIDE`] a
/// canvas comes back, and it has these sides. `Pixmap::new` gives none
/// only for a side of zero or a number of bytes beyond its types.
#[verifier::external_body]
fn blank_canvas(width: u32, height: u32) -> (r: Option<tiny_skia::Pixmap>)
    requires
        fits(width, height),
    ensures
        r is Some,
        r matches Some(canvas) ==> canvas_sides(canvas) == (width, height),
{
    tiny_skia::Pixmap::new(width, height)
}

/// Calls `resvg::render` with the identity transform.
///
/// Trusted: the canvas keeps its sides, as `render` gets its pixels on
/// loan and cannot resize it; what is painted is left open. The bound on
/// the sides keeps the arithmetic that `render` does on them within its
/// types, and a tree of texts alone keeps `render` away from filters,
/// masks and images.
#[verifier::external_body]
fn paint(tree: &usvg::Tree, canvas: &mut tiny_skia::Pixmap)
    requires
        holds_text_only(*tree),
        fits(canvas_sides(*old(canvas)).0, canvas_sides(*old(canvas)).1),
    ensures
        canvas_sides(*final(canvas)) == canvas_sides(*old(canvas)),
{
    resvg::render(tree, tiny_skia::Transform::default(), &mut canvas.as_mut())
}

/// Calls `tiny_skia::Pixmap::encode_png`.
///
/// Trusted: the bytes come back, and they begin as a PNG file of the
/// canvas's sides does. The encoder writes into memory, with a colour type
/// and a depth that go together and a buffer of the length that the sides
/// ask for, so none of its errors can arise. It writes the signature
/// first and the header chunk with the width and the height next; what
/// follows them is left open.
#[verifier::external_body]
fn encode_png(canvas: &tiny_skia::Pixmap) -> (r: Option<Vec<u8>>)
    requires
        fits(canvas_sides(*canvas).0, canvas_sides(*canvas).1),
    ensures
        r is Some,
        r matches Some(bytes) ==> is_png_of(
            bytes@,
            canvas_sides(*canvas).0,
            canvas_sides(*canvas).1,
        ),
{
    canvas.encode_png().ok()
}

/// Draws the SVG document `svg` with the faces of `fonts` and returns the
/// picture as a PNG file of [`CANVAS_WIDTH`] by [`CANVAS_HEIGHT`]. The
/// document has to be one that this library lays out.
pub fn render_png(svg: &str, fonts: &usvg::fontdb::Database) -> (bytes: Vec<u8>)
    requires
        is_challenge_document(svg@),
    ensures
        is_png_of(bytes@, CANVAS_WIDTH, CANVAS_HEIGHT),
{
    let mut tree = parse_svg(svg).unwrap();
    outline_text(&mut tree, fonts);
    let (width, height) = pixel_size(&tree);
    let mut canvas = blank_canvas(width, height).unwrap();
    paint(&tree, &mut canvas);
    encode_png(&canvas).unwrap()
}

/// Draws the picture of `answer`: its five digits, each in a colour drawn
/// at random and turned by the angle that `rotations` gives as a decimal
/// numeral. The picture comes back as a PNG file of [`CANVAS_WIDTH`] by
/// [`CANVAS_HEIGHT`].
pub fn generate_image(answer: u32, rotations: &Vec<String>, fonts: &usvg::fontdb::Database) -> (bytes:
    Vec<u8>)
    requires
        answer <= MAX_ANSWER,
        rotations@.len() == GLYPHS,
        all_angles(rotations@.map_values(|s: String| s@)),
    ensures
        is_png_of(bytes@, CANVAS_WIDTH, CANVAS_HEIGHT),
{
    let svg = challenge_svg(answer, rotations);
    render_png(svg.as_str(), fonts)
}

} // verus!
