//! The literal byte strings of the engine: placeholders, reserved file
//! names, and gallery image extensions, each as a spec sequence with a
//! matching executable constructor.

use vstd::prelude::*;

verus! {

/// `"{{outlet}}"`: the layout's page-body placeholder.
pub open spec fn spec_outlet_pat() -> Seq<u8> {
    seq![123u8, 123u8, 111u8, 117u8, 116u8, 108u8, 101u8, 116u8, 125u8, 125u8]
}

/// Executable `"{{outlet}}"`.
pub fn outlet_pat() -> (r: Vec<u8>)
    ensures
        r@ == spec_outlet_pat(),
{
    let v: Vec<u8> = vec![123u8, 123u8, 111u8, 117u8, 116u8, 108u8, 101u8, 116u8, 125u8, 125u8];
    proof { assert(v@ =~= spec_outlet_pat()); }
    v
}

/// `"{{visits:counter}}"`: the visit-counter placeholder.
pub open spec fn spec_visits_pat() -> Seq<u8> {
    seq![123u8, 123u8, 118u8, 105u8, 115u8, 105u8, 116u8, 115u8, 58u8, 99u8, 111u8, 117u8, 110u8, 116u8, 101u8, 114u8, 125u8, 125u8]
}

/// Executable `"{{visits:counter}}"`.
pub fn visits_pat() -> (r: Vec<u8>)
    ensures
        r@ == spec_visits_pat(),
{
    let v: Vec<u8> = vec![123u8, 123u8, 118u8, 105u8, 115u8, 105u8, 116u8, 115u8, 58u8, 99u8, 111u8, 117u8, 110u8, 116u8, 101u8, 114u8, 125u8, 125u8];
    proof { assert(v@ =~= spec_visits_pat()); }
    v
}

/// `"{{custom:"`: opening of a custom-string placeholder.
pub open spec fn spec_custom_open() -> Seq<u8> {
    seq![123u8, 123u8, 99u8, 117u8, 115u8, 116u8, 111u8, 109u8, 58u8]
}

/// Executable `"{{custom:"`.
pub fn custom_open() -> (r: Vec<u8>)
    ensures
        r@ == spec_custom_open(),
{
    let v: Vec<u8> = vec![123u8, 123u8, 99u8, 117u8, 115u8, 116u8, 111u8, 109u8, 58u8];
    proof { assert(v@ =~= spec_custom_open()); }
    v
}

/// `"}}"`: closing of a custom-string placeholder.
pub open spec fn spec_custom_close() -> Seq<u8> {
    seq![125u8, 125u8]
}

/// Executable `"}}"`.
pub fn custom_close() -> (r: Vec<u8>)
    ensures
        r@ == spec_custom_close(),
{
    let v: Vec<u8> = vec![125u8, 125u8];
    proof { assert(v@ =~= spec_custom_close()); }
    v
}

/// `"{{gallery}}"`: the gallery-listing placeholder.
pub open spec fn spec_gallery_pat() -> Seq<u8> {
    seq![123u8, 123u8, 103u8, 97u8, 108u8, 108u8, 101u8, 114u8, 121u8, 125u8, 125u8]
}

/// Executable `"{{gallery}}"`.
pub fn gallery_pat() -> (r: Vec<u8>)
    ensures
        r@ == spec_gallery_pat(),
{
    let v: Vec<u8> = vec![123u8, 123u8, 103u8, 97u8, 108u8, 108u8, 101u8, 114u8, 121u8, 125u8, 125u8];
    proof { assert(v@ =~= spec_gallery_pat()); }
    v
}

/// `"{{gallery:count}}"`: the gallery-count placeholder.
pub open spec fn spec_gallery_count_pat() -> Seq<u8> {
    seq![123u8, 123u8, 103u8, 97u8, 108u8, 108u8, 101u8, 114u8, 121u8, 58u8, 99u8, 111u8, 117u8, 110u8, 116u8, 125u8, 125u8]
}

/// Executable `"{{gallery:count}}"`.
pub fn gallery_count_pat() -> (r: Vec<u8>)
    ensures
        r@ == spec_gallery_count_pat(),
{
    let v: Vec<u8> = vec![123u8, 123u8, 103u8, 97u8, 108u8, 108u8, 101u8, 114u8, 121u8, 58u8, 99u8, 111u8, 117u8, 110u8, 116u8, 125u8, 125u8];
    proof { assert(v@ =~= spec_gallery_count_pat()); }
    v
}

/// `"{filepath}"`: per-item path slot of the gallery template.
pub open spec fn spec_filepath_pat() -> Seq<u8> {
    seq![123u8, 102u8, 105u8, 108u8, 101u8, 112u8, 97u8, 116u8, 104u8, 125u8]
}

/// Executable `"{filepath}"`.
pub fn filepath_pat() -> (r: Vec<u8>)
    ensures
        r@ == spec_filepath_pat(),
{
    let v: Vec<u8> = vec![123u8, 102u8, 105u8, 108u8, 101u8, 112u8, 97u8, 116u8, 104u8, 125u8];
    proof { assert(v@ =~= spec_filepath_pat()); }
    v
}

/// `"{filename}"`: per-item name slot of the gallery template.
pub open spec fn spec_filename_pat() -> Seq<u8> {
    seq![123u8, 102u8, 105u8, 108u8, 101u8, 110u8, 97u8, 109u8, 101u8, 125u8]
}

/// Executable `"{filename}"`.
pub fn filename_pat() -> (r: Vec<u8>)
    ensures
        r@ == spec_filename_pat(),
{
    let v: Vec<u8> = vec![123u8, 102u8, 105u8, 108u8, 101u8, 110u8, 97u8, 109u8, 101u8, 125u8];
    proof { assert(v@ =~= spec_filename_pat()); }
    v
}

/// `"\n"`: separator between gallery items.
pub open spec fn spec_newline() -> Seq<u8> {
    seq![10u8]
}

/// Executable `"\n"`.
pub fn newline() -> (r: Vec<u8>)
    ensures
        r@ == spec_newline(),
{
    let v: Vec<u8> = vec![10u8];
    proof { assert(v@ =~= spec_newline()); }
    v
}

/// `"/"`: path separator.
pub open spec fn spec_slash() -> Seq<u8> {
    seq![47u8]
}

/// Executable `"/"`.
pub fn slash() -> (r: Vec<u8>)
    ensures
        r@ == spec_slash(),
{
    let v: Vec<u8> = vec![47u8];
    proof { assert(v@ =~= spec_slash()); }
    v
}

/// `"index.html"`: directory index file name.
pub open spec fn spec_index_html() -> Seq<u8> {
    seq![105u8, 110u8, 100u8, 101u8, 120u8, 46u8, 104u8, 116u8, 109u8, 108u8]
}

/// Executable `"index.html"`.
pub fn index_html() -> (r: Vec<u8>)
    ensures
        r@ == spec_index_html(),
{
    let v: Vec<u8> = vec![105u8, 110u8, 100u8, 101u8, 120u8, 46u8, 104u8, 116u8, 109u8, 108u8];
    proof { assert(v@ =~= spec_index_html()); }
    v
}

/// `".html"`: extension tried for clean URLs.
pub open spec fn spec_dot_html() -> Seq<u8> {
    seq![46u8, 104u8, 116u8, 109u8, 108u8]
}

/// Executable `".html"`.
pub fn dot_html() -> (r: Vec<u8>)
    ensures
        r@ == spec_dot_html(),
{
    let v: Vec<u8> = vec![46u8, 104u8, 116u8, 109u8, 108u8];
    proof { assert(v@ =~= spec_dot_html()); }
    v
}

/// `"gallery/"`: prefix of gallery image keys.
pub open spec fn spec_gallery_prefix() -> Seq<u8> {
    seq![103u8, 97u8, 108u8, 108u8, 101u8, 114u8, 121u8, 47u8]
}

/// Executable `"gallery/"`.
pub fn gallery_prefix() -> (r: Vec<u8>)
    ensures
        r@ == spec_gallery_prefix(),
{
    let v: Vec<u8> = vec![103u8, 97u8, 108u8, 108u8, 101u8, 114u8, 121u8, 47u8];
    proof { assert(v@ =~= spec_gallery_prefix()); }
    v
}

/// `"gallery/.gallery-template.html"`: store key of the gallery item template.
pub open spec fn spec_gallery_template_key() -> Seq<u8> {
    seq![103u8, 97u8, 108u8, 108u8, 101u8, 114u8, 121u8, 47u8, 46u8, 103u8, 97u8, 108u8, 108u8, 101u8, 114u8, 121u8, 45u8, 116u8, 101u8, 109u8, 112u8, 108u8, 97u8, 116u8, 101u8, 46u8, 104u8, 116u8, 109u8, 108u8]
}

/// Executable `"gallery/.gallery-template.html"`.
pub fn gallery_template_key() -> (r: Vec<u8>)
    ensures
        r@ == spec_gallery_template_key(),
{
    let v: Vec<u8> = vec![103u8, 97u8, 108u8, 108u8, 101u8, 114u8, 121u8, 47u8, 46u8, 103u8, 97u8, 108u8, 108u8, 101u8, 114u8, 121u8, 45u8, 116u8, 101u8, 109u8, 112u8, 108u8, 97u8, 116u8, 101u8, 46u8, 104u8, 116u8, 109u8, 108u8];
    proof { assert(v@ =~= spec_gallery_template_key()); }
    v
}

/// `".layout.html"`: store key of the shared layout, one of the two
/// reserved dot-prefixed keys the store keeps.
pub open spec fn spec_layout_key() -> Seq<u8> {
    seq![46u8, 108u8, 97u8, 121u8, 111u8, 117u8, 116u8, 46u8, 104u8, 116u8, 109u8, 108u8]
}

/// Executable `".layout.html"`.
pub fn layout_key() -> (r: Vec<u8>)
    ensures
        r@ == spec_layout_key(),
{
    let v: Vec<u8> = vec![46u8, 108u8, 97u8, 121u8, 111u8, 117u8, 116u8, 46u8, 104u8, 116u8, 109u8, 108u8];
    proof { assert(v@ =~= spec_layout_key()); }
    v
}

/// `"jpg"`: gallery image extension.
pub open spec fn spec_ext_jpg() -> Seq<u8> {
    seq![106u8, 112u8, 103u8]
}

/// Executable `"jpg"`.
pub fn ext_jpg() -> (r: Vec<u8>)
    ensures
        r@ == spec_ext_jpg(),
{
    let v: Vec<u8> = vec![106u8, 112u8, 103u8];
    proof { assert(v@ =~= spec_ext_jpg()); }
    v
}

/// `"jpeg"`: gallery image extension.
pub open spec fn spec_ext_jpeg() -> Seq<u8> {
    seq![106u8, 112u8, 101u8, 103u8]
}

/// Executable `"jpeg"`.
pub fn ext_jpeg() -> (r: Vec<u8>)
    ensures
        r@ == spec_ext_jpeg(),
{
    let v: Vec<u8> = vec![106u8, 112u8, 101u8, 103u8];
    proof { assert(v@ =~= spec_ext_jpeg()); }
    v
}

/// `"png"`: gallery image extension.
pub open spec fn spec_ext_png() -> Seq<u8> {
    seq![112u8, 110u8, 103u8]
}

/// Executable `"png"`.
pub fn ext_png() -> (r: Vec<u8>)
    ensures
        r@ == spec_ext_png(),
{
    let v: Vec<u8> = vec![112u8, 110u8, 103u8];
    proof { assert(v@ =~= spec_ext_png()); }
    v
}

/// `"webp"`: gallery image extension.
pub open spec fn spec_ext_webp() -> Seq<u8> {
    seq![119u8, 101u8, 98u8, 112u8]
}

/// Executable `"webp"`.
pub fn ext_webp() -> (r: Vec<u8>)
    ensures
        r@ == spec_ext_webp(),
{
    let v: Vec<u8> = vec![119u8, 101u8, 98u8, 112u8];
    proof { assert(v@ =~= spec_ext_webp()); }
    v
}

/// `"gif"`: gallery image extension.
pub open spec fn spec_ext_gif() -> Seq<u8> {
    seq![103u8, 105u8, 102u8]
}

/// Executable `"gif"`.
pub fn ext_gif() -> (r: Vec<u8>)
    ensures
        r@ == spec_ext_gif(),
{
    let v: Vec<u8> = vec![103u8, 105u8, 102u8];
    proof { assert(v@ =~= spec_ext_gif()); }
    v
}

/// `"/."`: the mark of a dot-prefixed segment inside a key.
pub open spec fn spec_slash_dot() -> Seq<u8> {
    seq![47u8, 46u8]
}

/// Executable `"/."`.
pub fn slash_dot() -> (r: Vec<u8>)
    ensures
        r@ == spec_slash_dot(),
{
    let v: Vec<u8> = vec![47u8, 46u8];
    proof { assert(v@ =~= spec_slash_dot()); }
    v
}

} // verus!
