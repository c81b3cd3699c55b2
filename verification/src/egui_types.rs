//! The few `egui` types that the library's data carry, and the identifier
//! that `egui` derives from a name.
use vstd::prelude::*;

verus! {

/// `egui::Id`: the identifier of a widget or an item.
#[verifier::external_type_specification]
#[verifier::external_body]
pub struct ExId(egui::Id);

/// `egui::TextureId`: the handle of a loaded image.
#[verifier::external_type_specification]
#[verifier::external_body]
pub struct ExTextureId(egui::TextureId);

/// `egui::Rect`: where an item is drawn. The library only moves rectangles
/// around and never looks inside one.
#[verifier::external_type_specification]
#[verifier::external_body]
pub struct ExRect(egui::Rect);

/// `egui::Rect::ZERO`. Nothing is claimed of it.
#[verifier::external_body]
pub(crate) fn zero_rect() -> egui::Rect {
    egui::Rect::ZERO
}

/// The identifier that `egui::Id::unique` derives from a text.
pub uninterp spec fn text_id(text: Seq<char>) -> egui::Id;

/// `egui::Id::unique` on a text: a hash of the text with fixed seeds, so a
/// function of the text alone (the name `text_id`).
#[verifier::external_body]
pub(crate) fn id_from_text(text: &str) -> (r: egui::Id)
    ensures
        r == text_id(text@),
{
    egui::Id::unique(text)
}

/// Whether two texture identifiers are the same: the derived `PartialEq`
/// of `egui::TextureId`, an enum of two variants that each hold a `u64`,
/// which compares the variant and the number.
#[verifier::external_body]
pub(crate) fn texture_id_eq(a: &egui::TextureId, b: &egui::TextureId) -> (r: bool)
    ensures
        r == (*a == *b),
{
    *a == *b
}

/// What the derived `Debug` of `egui::TextureId` writes for `id`.
pub uninterp spec fn texture_id_text(id: egui::TextureId) -> Seq<char>;

/// The derived `Debug` text of a texture identifier (such as `Managed(3)`),
/// a function of the identifier alone (the name `texture_id_text`).
#[verifier::external_body]
pub(crate) fn debug_texture_id(id: &egui::TextureId) -> (r: String)
    ensures
        r@ == texture_id_text(*id),
{
    format!("{:?}", id)
}

} // verus!
