//! The items of the main view while the images load in the background: an
//! image that is still loading shows its file name, one that failed shows
//! it in other colours, and a loaded one is an image item.
use vstd::prelude::*;
use crate::dir::{lemma_rfind_in, rfind, str_rfind};
use crate::egui_types::text_id;
use crate::idx_name::IndexName;
use crate::image_item::{
    GroupAttr,
    ImageItem,
    SingleAttr,
    group_len,
    is_empty_group,
    item_renamed,
    names_suffice,
    rename_item,
    same_but_attr,
};
use crate::self_trait::{Content, DragItem, IntoContent, PosItem, SplitMergeItem};
use crate::related_struct::Position;
use crate::vec_ops::{dropped, lemma_drop_lands};
use crate::test_text::{LoadErrTextItem, LoadingTextItem, TextItemPos};
use vstd::string::{StrSliceExecFns, StringExecFns};

verus! {

/// The three states of an image of the main view.
pub enum LoadState {
    LoadDone(ImageItem),
    Loading(LoadingTextItem),
    LoadErr(LoadErrTextItem),
}

/// What the main view keeps of an item: something that depends on its text
/// only, or on its image.
#[derive(Debug, Hash, PartialEq, Eq)]
pub enum LoadEnum<I, T> {
    Str(T),
    Img(I),
}

impl<I, T: Default> Default for LoadEnum<I, T> {
    fn default() -> (r: Self)
        ensures
            r is Str,
    {
        LoadEnum::Str(T::default())
    }
}

impl Default for LoadState {
    /// A loading item with a random name.
    fn default() -> (r: Self)
        ensures
            r matches LoadState::Loading(t) && t.string@.len() == 10 && t.id == text_id(
                t.string@,
            ) && !t.editable,
    {
        LoadState::Loading(TextItemPos::new())
    }
}

/// The text after the last `.` of a file name.
pub open spec fn extension(name: Seq<char>) -> Seq<char> {
    match rfind(name, '.') {
        Some(p) => name.subrange(p + 1, name.len() as int),
        None => Seq::empty(),
    }
}

impl LoadState {
    /// The loading item of the file `str`.
    pub fn new_with_string(str: String) -> (r: Self)
        ensures
            r matches LoadState::Loading(t) && t.string == str && t.id == text_id(str@)
                && !t.editable,
    {
        LoadState::Loading(TextItemPos::from_str(str))
    }

    pub fn is_loading(&self) -> (r: bool)
        ensures
            r == (self is Loading),
    {
        match self {
            LoadState::Loading(_) => true,
            _ => false,
        }
    }

    pub fn is_loaddone(&self) -> (r: bool)
        ensures
            r == (self is LoadDone),
    {
        match self {
            LoadState::LoadDone(_) => true,
            _ => false,
        }
    }

    /// A loading item whose image could not be loaded becomes a failed one,
    /// with the same text, place and identifier.
    pub fn err_load(&mut self)
        requires
            *old(self) is Loading,
        ensures
            *final(self) matches LoadState::LoadErr(e) && *old(self) matches LoadState::Loading(t)
                && e.string == t.string && e.id == t.id && e.rect == t.rect && e.editable
                == t.editable,
    {
        let mut taken = LoadState::LoadErr(TextItemPos::from_str(String::new()));
        std::mem::swap(&mut taken, self);
        if let LoadState::Loading(txt) = taken {
            *self = LoadState::LoadErr(txt.trans2othercolor());
        }
    }

    /// A loading item whose image came: it becomes an image item in its
    /// place, named by the file name, with the thumbnail, the full image
    /// and its size. The result is what is kept to find the file again: the
    /// file name and its extension.
    pub fn load_image(
        &mut self,
        thumbnailer_texture_id: egui::TextureId,
        full_texture_id: egui::TextureId,
        dimension: [usize; 2],
    ) -> (r: (String, String))
        requires
            *old(self) matches LoadState::Loading(t) && rfind(t.string@, '.') is Some,
        ensures
            *old(self) matches LoadState::Loading(t) && *final(self) matches LoadState::LoadDone(img)
                && img.name == t.string && img.item_id == text_id(t.string@) && img.rect == t.rect
                && img.texture_id_tuple == (thumbnailer_texture_id, full_texture_id) && img.attr
                == Content::<SingleAttr, GroupAttr>::Single(dimension) && !img.editable
                && r.0 == t.string && r.1@ == extension(t.string@),
    {
        let mut taken = LoadState::LoadErr(TextItemPos::from_str(String::new()));
        std::mem::swap(&mut taken, self);
        match taken {
            LoadState::Loading(text_item) => {
                let name = text_item.string.clone();
                let image_item = ImageItem::upload_image(
                    &text_item,
                    thumbnailer_texture_id,
                    full_texture_id,
                    name,
                    dimension,
                );
                let s = text_item.string.as_str();
                proof {
                    lemma_rfind_in(s@, '.');
                }
                let p = str_rfind(s, '.').unwrap();
                let n = s.unicode_len();
                let ext = String::from_str(s.substring_char(p + 1, n));
                *self = LoadState::LoadDone(image_item);
                (text_item.string, ext)
            },
            _ => {
                *self = taken;
                (String::new(), String::new())
            },
        }
    }
}

/// Whether `s` holds a loaded image.
pub open spec fn is_done(s: LoadState) -> bool {
    s is LoadDone
}

/// The number of loaded images in `s`.
pub open spec fn count_done(s: Seq<LoadState>) -> nat
    decreases s.len(),
{
    if s.len() == 0 {
        0
    } else {
        count_done(s.drop_last()) + if s.last() is LoadDone {
            1nat
        } else {
            0nat
        }
    }
}

/// The images of `s`, in order, without the texts.
pub open spec fn only_images(s: Seq<LoadState>) -> Seq<ImageItem>
    decreases s.len(),
{
    if s.len() == 0 {
        Seq::empty()
    } else {
        match s.last() {
            LoadState::LoadDone(img) => only_images(s.drop_last()).push(img),
            _ => only_images(s.drop_last()),
        }
    }
}

/// The images of `s` as loaded items.
pub open spec fn boxed(s: Seq<ImageItem>) -> Seq<LoadState> {
    s.map_values(|x: ImageItem| LoadState::LoadDone(x))
}

/// Keeps the loaded images of `state_vec`, in order.
pub fn only_image(state_vec: Vec<LoadState>) -> (r: Vec<ImageItem>)
    ensures
        r@ == only_images(state_vec@),
{
    let ghost orig = state_vec@;
    let mut v = state_vec;
    let mut res: Vec<ImageItem> = Vec::new();
    let n = v.len();
    let mut k: usize = 0;
    while k < n
        invariant
            n == orig.len(),
            k <= n,
            v@ == orig.subrange(k as int, n as int),
            res@ == only_images(orig.take(k as int)),
        decreases n - k,
    {
        let x = v.remove(0);
        assert(orig.take(k + 1).drop_last() == orig.take(k as int));
        assert(x == orig[k as int]);
        if let LoadState::LoadDone(img) = x {
            res.push(img);
        }
        k = k + 1;
    }
    assert(orig.take(n as int) == orig);
    res
}

/// Wraps each image as a loaded item.
pub fn box_load_img_vec(img_vec: Vec<ImageItem>) -> (r: Vec<LoadState>)
    ensures
        r@ == boxed(img_vec@),
{
    let ghost orig = img_vec@;
    let mut v = img_vec;
    let mut res: Vec<LoadState> = Vec::new();
    let n = v.len();
    let mut k: usize = 0;
    while k < n
        invariant
            n == orig.len(),
            k <= n,
            v@ == orig.subrange(k as int, n as int),
            res@ == boxed(orig.take(k as int)),
        decreases n - k,
    {
        let x = v.remove(0);
        res.push(LoadState::LoadDone(x));
        k = k + 1;
        assert(res@ =~= boxed(orig.take(k as int)));
    }
    assert(orig.take(n as int) == orig);
    res
}

/// The images of loaded items are the images.
pub proof fn lemma_only_boxed(s: Seq<ImageItem>)
    ensures
        only_images(boxed(s)) == s,
        count_done(boxed(s)) == s.len(),
    decreases s.len(),
{
    if s.len() > 0 {
        assert(boxed(s).drop_last() =~= boxed(s.drop_last()));
        lemma_only_boxed(s.drop_last());
    } else {
        assert(boxed(s) =~= Seq::<LoadState>::empty());
    }
}

impl PosItem for LoadState {
    type Rect = egui::Rect;

    open spec fn rect_of(&self) -> egui::Rect {
        match self {
            LoadState::LoadDone(img) => img.rect,
            LoadState::Loading(t) => t.rect,
            LoadState::LoadErr(t) => t.rect,
        }
    }

    open spec fn with_rect(self, rect: egui::Rect) -> Self {
        match self {
            LoadState::LoadDone(img) => LoadState::LoadDone(img.with_rect(rect)),
            LoadState::Loading(t) => LoadState::Loading(t.with_rect(rect)),
            LoadState::LoadErr(t) => LoadState::LoadErr(t.with_rect(rect)),
        }
    }

    proof fn lemma_with_rect(x: Self, a: egui::Rect, b: egui::Rect) {
    }

    fn item_rect(&self) -> (r: egui::Rect) {
        match self {
            LoadState::LoadDone(img) => img.item_rect(),
            LoadState::Loading(t) => t.item_rect(),
            LoadState::LoadErr(t) => t.item_rect(),
        }
    }

    fn update_item_rect(&mut self, rect: egui::Rect) {
        match self {
            LoadState::LoadDone(img) => img.update_item_rect(rect),
            LoadState::Loading(t) => t.update_item_rect(rect),
            LoadState::LoadErr(t) => t.update_item_rect(rect),
        }
    }
}

impl DragItem for LoadState {
    open spec fn id_of(&self) -> egui::Id {
        match self {
            LoadState::LoadDone(img) => img.item_id,
            LoadState::Loading(t) => t.id,
            LoadState::LoadErr(t) => t.id,
        }
    }

    proof fn lemma_id_follows(x: Self, r: egui::Rect) {
    }

    fn id(&self) -> (r: egui::Id) {
        match self {
            LoadState::LoadDone(img) => img.id(),
            LoadState::Loading(t) => t.id(),
            LoadState::LoadErr(t) => t.id(),
        }
    }
}

impl LoadState {
    /// Only a loaded group can have its name edited.
    pub fn editable(&self) -> (r: bool)
        ensures
            r == match self {
                LoadState::LoadDone(img) => img.editable,
                LoadState::Loading(t) => t.editable,
                LoadState::LoadErr(t) => t.editable,
            },
    {
        match self {
            LoadState::LoadDone(img) => img.editable(),
            LoadState::LoadErr(txt) => txt.editable(),
            LoadState::Loading(txt) => txt.editable(),
        }
    }

    /// Texts never become editable.
    pub fn set_able(&mut self, able: bool)
        ensures
            match (*old(self), *final(self)) {
                (LoadState::LoadDone(a), LoadState::LoadDone(b)) => b.editable == (!(a.attr is Single)
                    && able) && b.name == a.name && b.item_id == a.item_id && b.rect == a.rect
                    && b.texture_id_tuple == a.texture_id_tuple && b.attr == a.attr,
                _ => *final(self) == *old(self) && !(*old(self) is LoadDone),
            },
    {
        match self {
            LoadState::LoadDone(img) => img.set_able(able),
            _ => {},
        }
    }
}

impl IntoContent for LoadState {
    type Single = ();

    type Group = GroupAttr;

    type MergeUsed = egui::TextureId;

    /// A loaded group holds a group; everything else is a single thing.
    open spec fn content_of(&self) -> Content<(), GroupAttr> {
        match self {
            LoadState::LoadDone(img) => match img.attr {
                Content::Single(_) => Content::Single(()),
                Content::Group(g) => Content::Group(g),
            },
            _ => Content::Single(()),
        }
    }

    open spec fn is_emptied(&self, before: &Self) -> bool {
        match (*self, *before) {
            (LoadState::LoadDone(a), LoadState::LoadDone(b)) => a.is_emptied(&b),
            _ => *self == *before && !(*self is LoadDone),
        }
    }

    open spec fn is_single_spec(&self) -> bool {
        match self {
            LoadState::LoadDone(img) => img.attr is Single,
            _ => true,
        }
    }

    open spec fn name_spec(&self) -> Seq<char> {
        match self {
            LoadState::LoadDone(img) => img.name@,
            LoadState::Loading(t) => t.string@,
            LoadState::LoadErr(t) => t.string@,
        }
    }

    /// Only two loaded images merge.
    open spec fn merge_able_spec(&self, other: &Self) -> bool {
        &&& *self is LoadDone
        &&& *other is LoadDone
    }

    open spec fn merge_result(&self, other: &Self, help: &egui::TextureId, r: &Self) -> bool {
        match (*self, *other, *r) {
            (LoadState::LoadDone(a), LoadState::LoadDone(b), LoadState::LoadDone(c)) => a.merge_result(
                &b,
                help,
                &c,
            ),
            _ => false,
        }
    }

    proof fn lemma_merge_place(a: Self, b: Self, help: egui::TextureId, result: Self) {
    }

    proof fn lemma_merge_able(a: Self, b: Self, r: egui::Rect) {
    }

    fn get_content(&mut self) -> (r: Content<(), GroupAttr>) {
        match self {
            LoadState::LoadDone(img) => match img.get_content() {
                Content::Single(_) => Content::Single(()),
                Content::Group(grp) => Content::Group(grp),
            },
            _ => Content::Single(()),
        }
    }

    fn is_single(&self) -> (r: bool) {
        match self {
            LoadState::LoadDone(img) => img.is_single(),
            _ => true,
        }
    }

    fn name(&self) -> (r: &str) {
        match self {
            LoadState::LoadDone(img) => img.name(),
            LoadState::LoadErr(text) => text.name(),
            LoadState::Loading(text) => text.name(),
        }
    }

    fn merge_able(&self, other_item: &Self) -> (r: bool) {
        match (self, other_item) {
            (LoadState::LoadDone(_), LoadState::LoadDone(_)) => true,
            _ => false,
        }
    }

    fn merge(self, other_item: Self, help_source: &egui::TextureId) -> (r: Self) {
        match self {
            LoadState::LoadDone(img0) => match other_item {
                LoadState::LoadDone(img1) => LoadState::LoadDone(img0.merge(img1, help_source)),
                _ => other_item,
            },
            _ => self,
        }
    }
}

impl SplitMergeItem<LoadState> for GroupAttr {
    /// The rows of the group, as loaded items.
    open spec fn split_rows(&self, rows: Seq<Seq<LoadState>>) -> bool {
        rows == seq![boxed(self.inner.0@), boxed(self.inner.1@), boxed(self.inner.2@)]
    }

    open spec fn can_split(&self) -> bool {
        true
    }

    open spec fn is_split_of(&self, before: &Self) -> bool {
        is_empty_group(*self)
    }

    /// A group holds images only: the texts handed back are left out. The
    /// first two rows are taken back; the images of the third row are
    /// handed out.
    open spec fn embed_result(
        &self,
        before: &Self,
        rows: Seq<Seq<LoadState>>,
        out: Seq<LoadState>,
    ) -> bool {
        &&& self.inner.0@ == only_images(rows[0])
        &&& self.inner.1@ == only_images(rows[1])
        &&& self.inner.2 == before.inner.2
        &&& out == boxed(only_images(rows[2]))
    }

    open spec fn back_top_result(&self, parent: &LoadState, result: &LoadState) -> bool {
        match (*parent, *result) {
            (LoadState::LoadDone(p), LoadState::LoadDone(r)) => {
                &&& r.attr == Content::<SingleAttr, GroupAttr>::Group(*self)
                &&& same_but_attr(r, p)
            },
            _ => false,
        }
    }

    /// Only a loaded image holds a group.
    open spec fn can_hold(&self, parent: &LoadState) -> bool {
        *parent is LoadDone
    }

    /// A loaded image is worth keeping, and so is a loaded non-empty group.
    open spec fn is_valid_spec(outer: &LoadState) -> bool {
        match *outer {
            LoadState::LoadDone(img) => match img.attr {
                Content::Single(_) => true,
                Content::Group(g) => group_len(g) != 0,
            },
            _ => false,
        }
    }

    open spec fn content_num_spec(&self) -> nat {
        self.inner.0@.len() + self.inner.1@.len()
    }

    fn split(&mut self) -> (r: [Vec<LoadState>; 3]) {
        let mut rows = <GroupAttr as SplitMergeItem<ImageItem>>::split(self);
        let mut v0 = Vec::new();
        let mut v1 = Vec::new();
        let mut v2 = Vec::new();
        std::mem::swap(&mut v0, &mut rows[0]);
        std::mem::swap(&mut v1, &mut rows[1]);
        std::mem::swap(&mut v2, &mut rows[2]);
        [box_load_img_vec(v0), box_load_img_vec(v1), box_load_img_vec(v2)]
    }

    fn embed(&mut self, vvec: [Vec<LoadState>; 3]) -> (r: Vec<LoadState>) {
        let mut vvec = vvec;
        let mut v0 = Vec::new();
        let mut v1 = Vec::new();
        let mut v2 = Vec::new();
        std::mem::swap(&mut v0, &mut vvec[0]);
        std::mem::swap(&mut v1, &mut vvec[1]);
        std::mem::swap(&mut v2, &mut vvec[2]);
        let images = [only_image(v0), only_image(v1), only_image(v2)];
        box_load_img_vec(<GroupAttr as SplitMergeItem<ImageItem>>::embed(self, images))
    }

    fn back_top(self, parent: &mut LoadState) {
        match parent {
            LoadState::LoadDone(img) => {
                <GroupAttr as SplitMergeItem<ImageItem>>::back_top(self, img);
            },
            _ => {},
        }
    }

    fn is_valid(inner_type: &LoadState) -> (r: bool) {
        match inner_type {
            LoadState::LoadDone(img) => <GroupAttr as SplitMergeItem<ImageItem>>::is_valid(img),
            _ => false,
        }
    }

    fn content_num(&self) -> (r: usize) {
        <GroupAttr as SplitMergeItem<ImageItem>>::content_num(self)
    }
}

proof fn lemma_count_done_take(s: Seq<LoadState>, j: int)
    requires
        0 <= j <= s.len(),
    ensures
        count_done(s.take(j)) <= count_done(s),
    decreases s.len(),
{
    if j < s.len() {
        assert(s.take(j) == s.drop_last().take(j));
        lemma_count_done_take(s.drop_last(), j);
    } else {
        assert(s.take(j) == s);
    }
}

/// Row `n` is row `o` with its loaded images renamed in order, the first
/// with the `first`-th name; texts keep their names and take none.
pub open spec fn load_row_renamed(
    o: Seq<LoadState>,
    n: Seq<LoadState>,
    style: (u32, u32, u32),
    start: nat,
    first: nat,
) -> bool {
    &&& n.len() == o.len()
    &&& forall|j: int|
        0 <= j < o.len() ==> match o[j] {
            LoadState::LoadDone(a) => #[trigger] n[j] matches LoadState::LoadDone(b)
                && item_renamed(a, b, style, start, first + count_done(o.take(j))),
            _ => n[j] == o[j],
        }
}

/// Every loaded group of `s` has enough names from `start`.
pub open spec fn load_row_suffice(s: Seq<LoadState>, start: nat, max: nat) -> bool {
    forall|j: int|
        0 <= j < s.len() ==> match #[trigger] s[j] {
            LoadState::LoadDone(img) => match img.attr {
                Content::Group(g) => names_suffice(g.inner, start, max),
                Content::Single(_) => true,
            },
            _ => true,
        }
}

/// A sequence of `max` names positioned at `start` names the loaded images
/// of two rows and, from the same position, every loaded group in them.
pub open spec fn load_names_suffice(r0: Seq<LoadState>, r1: Seq<LoadState>, start: nat, max: nat) -> bool {
    &&& start + count_done(r0) + count_done(r1) <= max
    &&& load_row_suffice(r0, start, max)
    &&& load_row_suffice(r1, start, max)
}

fn rename_load_row(idx: &mut IndexName, cloned: &IndexName, row: &mut Vec<LoadState>)
    requires
        old(idx).wf(),
        cloned.wf(),
        cloned.style == old(idx).style,
        cloned.max_size == old(idx).max_size,
        old(idx).now_num + count_done(old(row)@) <= old(idx).max_size,
        load_row_suffice(old(row)@, cloned.now_num as nat, cloned.max_size as nat),
    ensures
        final(idx).wf(),
        final(idx).style == old(idx).style,
        final(idx).max_size == old(idx).max_size,
        final(idx).now_num == old(idx).now_num + count_done(old(row)@),
        load_row_renamed(old(row)@, final(row)@, old(idx).style, cloned.now_num as nat, old(idx).now_num as nat),
{
    let ghost orig = row@;
    let ghost first = idx.now_num as nat;
    let n = row.len();
    for j in 0..n
        invariant
            n == orig.len(),
            orig == old(row)@,
            row@.len() == n,
            idx.wf(),
            cloned.wf(),
            idx.style == old(idx).style,
            idx.max_size == old(idx).max_size,
            cloned.style == old(idx).style,
            cloned.max_size == old(idx).max_size,
            idx.now_num == first + count_done(orig.take(j as int)),
            first + count_done(orig) <= idx.max_size,
            load_row_suffice(orig, cloned.now_num as nat, cloned.max_size as nat),
            forall|i: int| j <= i < n ==> #[trigger] row@[i] == orig[i],
            forall|i: int|
                0 <= i < j ==> match orig[i] {
                    LoadState::LoadDone(a) => #[trigger] row@[i] matches LoadState::LoadDone(b)
                        && item_renamed(a, b, idx.style, cloned.now_num as nat, first + count_done(orig.take(i))),
                    _ => row@[i] == orig[i],
                },
    {
        assert(orig.take(j + 1).drop_last() == orig.take(j as int));
        proof {
            lemma_count_done_take(orig, j + 1);
        }
        let mut item = LoadState::LoadErr(TextItemPos::from_str(String::new()));
        std::mem::swap(&mut item, &mut row[j]);
        assert(item == orig[j as int]);
        match item {
            LoadState::LoadDone(img) => {
                let img = rename_item(idx, cloned, img);
                row.set(j, LoadState::LoadDone(img));
            },
            _ => {
                row.set(j, item);
            },
        }
    }
    assert(orig.take(n as int) == orig);
}

/// Renames the loaded images of the first two rows of `vvec`, and the
/// groups in them, with the names of `idx_name`: each image takes the next
/// name (a group puts it in front of its own name), and the items of a
/// group are named again from where `idx_name` started. Texts are left as
/// they are, and so is the third row.
pub fn rename_load_inner(idx_name: IndexName, vvec: &mut [Vec<LoadState>; 3])
    requires
        idx_name.wf(),
        load_names_suffice(old(vvec)[0]@, old(vvec)[1]@, idx_name.now_num as nat, idx_name.max_size as nat),
    ensures
        load_row_renamed(old(vvec)[0]@, final(vvec)[0]@, idx_name.style, idx_name.now_num as nat, idx_name.now_num as nat),
        load_row_renamed(old(vvec)[1]@, final(vvec)[1]@, idx_name.style, idx_name.now_num as nat, idx_name.now_num as nat + count_done(old(vvec)[0]@)),
        final(vvec)[2] == old(vvec)[2],
{
    let cloned = idx_name.clone();
    let mut idx_name = idx_name;
    let mut row0 = Vec::new();
    let mut row1 = Vec::new();
    std::mem::swap(&mut row0, &mut vvec[0]);
    std::mem::swap(&mut row1, &mut vvec[1]);
    rename_load_row(&mut idx_name, &cloned, &mut row0);
    rename_load_row(&mut idx_name, &cloned, &mut row1);
    std::mem::swap(&mut row0, &mut vvec[0]);
    std::mem::swap(&mut row1, &mut vvec[1]);
}


/// Any two loaded items merge, single images and groups alike.
pub proof fn lemma_loaded_items_merge(x: ImageItem, y: ImageItem)
    ensures
        LoadState::LoadDone(x).merge_able_spec(&LoadState::LoadDone(y)),
        x.merge_able_spec(&y),
{
}


/// Dropping a loaded item on the middle of another loaded item of the same
/// panel always merges them: the panel loses one item, and the result names
/// the dragged item and the one it was dropped on.
pub proof fn lemma_loaded_drop_merges(
    s: Seq<LoadState>,
    d: int,
    t: int,
    help: egui::TextureId,
    r: Option<(egui::Id, egui::Id)>,
    after: Seq<LoadState>,
)
    requires
        0 <= d < s.len(),
        0 <= t < s.len(),
        d != t,
        s[d] is LoadDone,
        s[t] is LoadDone,
        dropped(s, d, t, Position::Middle, &help, r, after),
    ensures
        r == Some((s[d].id_of(), s[t].id_of())),
        after.len() == s.len() - 1,
{
    lemma_drop_lands(s, d, t, Position::Middle, help, r, after);
}

} // verus!
