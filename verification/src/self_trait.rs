//! The behaviour that the panels and the main view ask of their items:
//! a rectangle that can be moved, an identity, and contents that can be
//! merged, opened and closed.
use vstd::prelude::*;

verus! {

/// What an item holds: one thing, or a group of items.
pub enum Content<S, G> {
    Single(S),
    Group(G),
}

/// An item that occupies a rectangle of its panel.
pub trait PosItem: Sized {
    /// The rectangle type.
    type Rect: Copy;

    /// The rectangle the item occupies.
    spec fn rect_of(&self) -> Self::Rect;

    /// The same item placed in `rect`.
    spec fn with_rect(self, rect: Self::Rect) -> Self;

    /// Moving an item places it where asked and keeps the rest of it.
    proof fn lemma_with_rect(x: Self, a: Self::Rect, b: Self::Rect)
        ensures
            x.with_rect(a).rect_of() == a,
            x.with_rect(a).with_rect(b) == x.with_rect(b),
            x.with_rect(x.rect_of()) == x,
    ;

    fn item_rect(&self) -> (r: Self::Rect)
        ensures
            r == self.rect_of(),
    ;

    fn update_item_rect(&mut self, rect: Self::Rect)
        ensures
            *final(self) == old(self).with_rect(rect),
    ;
}

/// An item that can be dragged; its identifier follows it.
pub trait DragItem: PosItem {
    spec fn id_of(&self) -> egui::Id;

    /// Moving an item keeps its identifier.
    proof fn lemma_id_follows(x: Self, r: Self::Rect)
        ensures
            x.with_rect(r).id_of() == x.id_of(),
    ;

    fn id(&self) -> (r: egui::Id)
        ensures
            r == self.id_of(),
    ;
}

/// An item whose contents are one thing or a group, and which merges with
/// other items into groups.
pub trait IntoContent: PosItem {
    type Single;

    type Group;

    /// What merging needs besides the two items.
    type MergeUsed;

    /// The contents of the item.
    spec fn content_of(&self) -> Content<Self::Single, Self::Group>;

    /// `self` is `before` with its contents taken out.
    spec fn is_emptied(&self, before: &Self) -> bool;

    spec fn is_single_spec(&self) -> bool;

    spec fn name_spec(&self) -> Seq<char>;

    spec fn merge_able_spec(&self, other: &Self) -> bool;

    /// `result` is what merging `other` into `self` gives.
    spec fn merge_result(&self, other: &Self, help: &Self::MergeUsed, result: &Self) -> bool;

    /// Whether two items merge does not depend on their order or on where
    /// they are placed.
    proof fn lemma_merge_able(a: Self, b: Self, r: Self::Rect)
        ensures
            a.merge_able_spec(&b) == b.merge_able_spec(&a),
            a.with_rect(r).merge_able_spec(&b) == a.merge_able_spec(&b),
    ;

    /// A merged item takes the place of the item merged into.
    proof fn lemma_merge_place(a: Self, b: Self, help: Self::MergeUsed, result: Self)
        requires
            a.merge_result(&b, &help, &result),
        ensures
            result.rect_of() == a.rect_of(),
    ;

    /// Takes the contents out, leaving the item empty.
    fn get_content(&mut self) -> (r: Content<Self::Single, Self::Group>)
        ensures
            r == old(self).content_of(),
            final(self).is_emptied(&*old(self)),
    ;

    /// Whether the contents are one thing, without taking them out.
    fn is_single(&self) -> (r: bool)
        ensures
            r == self.is_single_spec(),
    ;

    /// The name shown for the item.
    fn name(&self) -> (r: &str)
        ensures
            r@ == self.name_spec(),
    ;

    fn merge_able(&self, other_item: &Self) -> (r: bool)
        ensures
            r == self.merge_able_spec(other_item),
    ;

    fn merge(self, other_item: Self, help_source: &Self::MergeUsed) -> (r: Self)
        requires
            self.merge_able_spec(&other_item),
        ensures
            self.merge_result(&other_item, help_source, &r),
    ;
}

/// A group that can hand out its items in three rows and take them back.
pub trait SplitMergeItem<T>: Sized {
    /// `rows` are the three rows of the group.
    spec fn split_rows(&self, rows: Seq<Seq<T>>) -> bool;

    /// Whether the group can hand out its rows.
    spec fn can_split(&self) -> bool;

    /// `self` is `before` with its rows taken out.
    spec fn is_split_of(&self, before: &Self) -> bool;

    /// `self` is `before` with `rows` put back, and `out` holds the items it
    /// does not keep.
    spec fn embed_result(&self, before: &Self, rows: Seq<Seq<T>>, out: Seq<T>) -> bool;

    /// `result` is `parent` with this group as its contents.
    spec fn back_top_result(&self, parent: &T, result: &T) -> bool;

    /// Whether `parent` can take this group as its contents.
    spec fn can_hold(&self, parent: &T) -> bool;

    spec fn is_valid_spec(outer: &T) -> bool;

    spec fn content_num_spec(&self) -> nat;

    /// Takes the three rows out, leaving an empty group.
    fn split(&mut self) -> (r: [Vec<T>; 3])
        requires
            old(self).can_split(),
        ensures
            old(self).split_rows(seq![r[0]@, r[1]@, r[2]@]),
            final(self).is_split_of(&*old(self)),
    ;

    /// Puts three rows back; returns the items that the group does not keep.
    fn embed(&mut self, vvec: [Vec<T>; 3]) -> (r: Vec<T>)
        ensures
            final(self).embed_result(&*old(self), seq![vvec[0]@, vvec[1]@, vvec[2]@], r@),
    ;

    /// Makes this group the contents of `parent`.
    fn back_top(self, parent: &mut T)
        requires
            self.can_hold(&*old(parent)),
        ensures
            self.back_top_result(&*old(parent), &*final(parent)),
    ;

    /// Whether an item is worth keeping.
    fn is_valid(outer_type: &T) -> (r: bool)
        ensures
            r == Self::is_valid_spec(outer_type),
    ;

    /// The number of items on the first two rows.
    fn content_num(&self) -> (r: usize)
        requires
            self.content_num_spec() <= usize::MAX,
        ensures
            r == self.content_num_spec(),
    ;
}

} // verus!
