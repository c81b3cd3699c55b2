//! Items that show an image, or a group of image items. The sizes at which
//! thumbnails are drawn are worked out by the window when it draws them.
use vstd::prelude::*;
use crate::egui_types::{id_from_text, text_id, zero_rect};
use crate::idx_name::{IndexName, name_at, lemma_wf_can_step};
use crate::self_trait::{Content, DragItem, IntoContent, PosItem, SplitMergeItem};
use crate::test_text::{LoadingTextItem, is_ascii_alphanumeric, random_alphanumeric_string};
use vstd::string::StringExecFns;

verus! {

/// The size of the full image, in pixels.
pub type SingleAttr = [usize; 2];

/// An image item holds one image or a group.
pub type ImageAttr = Content<SingleAttr, GroupAttr>;

/// Three rows of items.
pub type Rows<T> = (Vec<T>, Vec<T>, Vec<T>);

/// A group of image items, in three rows.
pub struct GroupAttr {
    pub inner: Rows<ImageItem>,
}

pub struct ImageItem {
    pub name: String,
    pub editable: bool,
    pub item_id: egui::Id,
    pub rect: egui::Rect,
    /// The thumbnail and the full image.
    pub texture_id_tuple: (egui::TextureId, egui::TextureId),
    pub attr: ImageAttr,
}

/// The `i`-th row.
pub open spec fn row<T>(r: Rows<T>, i: int) -> Seq<T> {
    if i == 0 {
        r.0@
    } else if i == 1 {
        r.1@
    } else {
        r.2@
    }
}

/// The three rows as sequences.
pub open spec fn rows_view<T>(r: Rows<T>) -> Seq<Seq<T>> {
    seq![r.0@, r.1@, r.2@]
}

/// The number of items of a group.
pub open spec fn group_len(g: GroupAttr) -> nat {
    g.inner.0@.len() + g.inner.1@.len() + g.inner.2@.len()
}

pub open spec fn max_nat(a: nat, b: nat) -> nat {
    if a >= b {
        a
    } else {
        b
    }
}

/// The largest number of items in one group, over the group and every
/// group nested in it.
pub open spec fn group_max_len(g: GroupAttr) -> nat
    decreases g, 0int,
{
    let a = seq_max_len(g.inner.0@, g.inner.0@.len() as int);
    let b = seq_max_len(g.inner.1@, g.inner.1@.len() as int);
    let c = seq_max_len(g.inner.2@, g.inner.2@.len() as int);
    max_nat(group_len(g), max_nat(a, max_nat(b, c)))
}

/// The largest group size among the groups of the first `n` items of `s`.
pub open spec fn seq_max_len(s: Seq<ImageItem>, n: int) -> nat
    decreases s, n,
{
    if n <= 0 || n > s.len() {
        0
    } else {
        max_nat(seq_max_len(s, n - 1), item_max_len(s[n - 1]))
    }
}

/// The largest group size within an item (zero for a single image).
pub open spec fn item_max_len(it: ImageItem) -> nat
    decreases it, 0int,
{
    match it.attr {
        Content::Single(_) => 0,
        Content::Group(g) => group_max_len(g),
    }
}

proof fn lemma_seq_max_len(s: Seq<ImageItem>, n: int, j: int)
    requires
        0 <= j < n <= s.len(),
    ensures
        item_max_len(s[j]) <= seq_max_len(s, n),
    decreases n,
{
    if j < n - 1 {
        lemma_seq_max_len(s, n - 1, j);
    }
}

/// The empty group.
pub open spec fn is_empty_group(g: GroupAttr) -> bool {
    &&& g.inner.0@.len() == 0
    &&& g.inner.1@.len() == 0
    &&& g.inner.2@.len() == 0
}

impl Default for GroupAttr {
    fn default() -> (r: Self)
        ensures
            is_empty_group(r),
    {
        GroupAttr { inner: (Vec::new(), Vec::new(), Vec::new()) }
    }
}

/// `egui::TextureId::default()`. Nothing is claimed of it.
#[verifier::external_body]
pub(crate) fn default_texture_id() -> egui::TextureId {
    egui::TextureId::default()
}

impl GroupAttr {
    /// The largest number of items in this group or any group nested in it.
    pub fn max_len(&self) -> (r: usize)
        requires
            group_max_len(*self) <= usize::MAX,
        ensures
            r == group_max_len(*self),
        decreases *self,
    {
        let mut len = self.len();
        let l0 = rows_max_len(&self.inner.0);
        let l1 = rows_max_len(&self.inner.1);
        let l2 = rows_max_len(&self.inner.2);
        if l0 > len {
            len = l0;
        }
        if l1 > len {
            len = l1;
        }
        if l2 > len {
            len = l2;
        }
        len
    }

    /// The number of items of the group.
    pub fn len(&self) -> (r: usize)
        requires
            group_len(*self) <= usize::MAX,
        ensures
            r == group_len(*self),
    {
        self.inner.0.len() + self.inner.1.len() + self.inner.2.len()
    }

    /// How many items of the first row a group shows on its cover.
    pub fn disp_len(&self) -> (r: usize)
        ensures
            r == (if self.inner.0@.len() < 3 {
                self.inner.0@.len()
            } else {
                3
            }),
    {
        let n = self.inner.0.len();
        if n < 3 {
            n
        } else {
            3
        }
    }
}

/// The largest group size within the items of a row.
fn rows_max_len(row: &Vec<ImageItem>) -> (r: usize)
    requires
        seq_max_len(row@, row@.len() as int) <= usize::MAX,
    ensures
        r == seq_max_len(row@, row@.len() as int),
    decreases row@, 0int,
{
    let mut best: usize = 0;
    let n = row.len();
    for j in 0..n
        invariant
            n == row@.len(),
            seq_max_len(row@, n as int) <= usize::MAX,
            best == seq_max_len(row@, j as int),
    {
        proof {
            lemma_seq_max_len_mono(row@, j + 1, n as int);
            assert(seq_max_len(row@, j + 1) == max_nat(
                seq_max_len(row@, j as int),
                item_max_len(row@[j as int]),
            ));
        }
        let m = match &row[j].attr {
            Content::Single(_) => 0,
            Content::Group(grp) => {
                grp.max_len()
            },
        };
        if m > best {
            best = m;
        }
    }
    best
}

proof fn lemma_seq_max_len_mono(s: Seq<ImageItem>, m: int, n: int)
    requires
        0 <= m <= n <= s.len(),
    ensures
        seq_max_len(s, m) <= seq_max_len(s, n),
    decreases n,
{
    if m < n {
        lemma_seq_max_len_mono(s, m, n - 1);
    }
}

impl Default for ImageItem {
    fn default() -> (r: Self)
        ensures
            r.name@ == Seq::<char>::empty(),
            !r.editable,
            r.item_id == text_id(Seq::<char>::empty()),
            r.attr matches Content::Group(g) && is_empty_group(g),
    {
        let name = String::new();
        let item_id = id_from_text(name.as_str());
        ImageItem {
            name,
            item_id,
            editable: false,
            rect: zero_rect(),
            texture_id_tuple: (default_texture_id(), default_texture_id()),
            attr: Content::Group(GroupAttr::default()),
        }
    }
}

/// An item whose rectangle, texts and handles are those of `before`.
pub open spec fn same_but_attr(a: ImageItem, b: ImageItem) -> bool {
    &&& a.name == b.name
    &&& a.editable == b.editable
    &&& a.item_id == b.item_id
    &&& a.rect == b.rect
    &&& a.texture_id_tuple == b.texture_id_tuple
}

impl ImageItem {
    /// The item of a loaded image: its thumbnail and full texture, its file
    /// name and its size in pixels. It is identified by its name.
    pub fn from_texture_parts(
        thumbnailer_texture_id: egui::TextureId,
        full_texture_id: egui::TextureId,
        name: String,
        dimension: [usize; 2],
    ) -> (r: Self)
        ensures
            r.name == name,
            r.item_id == text_id(name@),
            r.texture_id_tuple == (thumbnailer_texture_id, full_texture_id),
            r.attr == Content::<SingleAttr, GroupAttr>::Single(dimension),
            !r.editable,
    {
        let item_id = id_from_text(name.as_str());
        ImageItem {
            name,
            item_id,
            editable: false,
            rect: zero_rect(),
            texture_id_tuple: (thumbnailer_texture_id, full_texture_id),
            attr: Content::Single(dimension),
        }
    }

    /// The loaded image that replaces a loading item, in its place.
    pub fn upload_image(
        text_item: &LoadingTextItem,
        thumbnailer_texture_id: egui::TextureId,
        full_texture_id: egui::TextureId,
        name: String,
        dimension: [usize; 2],
    ) -> (r: Self)
        ensures
            r.name == name,
            r.item_id == text_id(name@),
            r.texture_id_tuple == (thumbnailer_texture_id, full_texture_id),
            r.attr == Content::<SingleAttr, GroupAttr>::Single(dimension),
            r.rect == text_item.rect,
            !r.editable,
    {
        let mut image_item = ImageItem::from_texture_parts(
            thumbnailer_texture_id,
            full_texture_id,
            name,
            dimension,
        );
        image_item.update_item_rect(text_item.rect);
        image_item
    }

    /// Identifies the item by its current name.
    pub fn update_id(&mut self)
        ensures
            final(self).item_id == text_id(old(self).name@),
            final(self).name == old(self).name,
            final(self).editable == old(self).editable,
            final(self).rect == old(self).rect,
            final(self).texture_id_tuple == old(self).texture_id_tuple,
            final(self).attr == old(self).attr,
    {
        self.item_id = id_from_text(self.name.as_str());
    }

    pub fn editable(&self) -> (r: bool)
        ensures
            r == self.editable,
    {
        self.editable
    }

    /// Only a group can have its name edited.
    pub fn set_able(&mut self, able: bool)
        ensures
            final(self).editable == (!(old(self).attr is Single) && able),
            final(self).name == old(self).name,
            final(self).item_id == old(self).item_id,
            final(self).rect == old(self).rect,
            final(self).texture_id_tuple == old(self).texture_id_tuple,
            final(self).attr == old(self).attr,
    {
        self.editable = !(self.is_single()) && able;
    }
}

impl PosItem for ImageItem {
    type Rect = egui::Rect;

    open spec fn rect_of(&self) -> egui::Rect {
        self.rect
    }

    open spec fn with_rect(self, rect: egui::Rect) -> Self {
        ImageItem {
            name: self.name,
            editable: self.editable,
            item_id: self.item_id,
            rect,
            texture_id_tuple: self.texture_id_tuple,
            attr: self.attr,
        }
    }

    proof fn lemma_with_rect(x: Self, a: egui::Rect, b: egui::Rect) {
    }

    fn item_rect(&self) -> (r: egui::Rect) {
        self.rect
    }

    fn update_item_rect(&mut self, rect: egui::Rect) {
        self.rect = rect;
    }
}

impl DragItem for ImageItem {
    open spec fn id_of(&self) -> egui::Id {
        self.item_id
    }

    proof fn lemma_id_follows(x: Self, r: egui::Rect) {
    }

    fn id(&self) -> (r: egui::Id) {
        self.item_id
    }
}

impl IntoContent for ImageItem {
    type Single = SingleAttr;

    type Group = GroupAttr;

    type MergeUsed = egui::TextureId;

    open spec fn content_of(&self) -> ImageAttr {
        self.attr
    }

    open spec fn is_emptied(&self, before: &Self) -> bool {
        &&& self.attr matches Content::Group(g) && is_empty_group(g)
        &&& same_but_attr(*self, *before)
    }

    open spec fn is_single_spec(&self) -> bool {
        self.attr is Single
    }

    open spec fn name_spec(&self) -> Seq<char> {
        self.name@
    }

    open spec fn merge_able_spec(&self, other: &Self) -> bool {
        true
    }

    /// A single image and another item make a new group named by five
    /// random letters and digits, in the place of the first image, shown
    /// with the group texture `help`; a group takes the other item at the
    /// end of its first row.
    open spec fn merge_result(&self, other: &Self, help: &egui::TextureId, r: &Self) -> bool {
        match self.attr {
            Content::Single(_) => {
                &&& r.attr matches Content::Group(g) && g.inner.0@ == seq![*self, *other]
                    && g.inner.1@.len() == 0 && g.inner.2@.len() == 0
                &&& r.rect == self.rect
                &&& r.texture_id_tuple == (*help, *help)
                &&& r.name@.len() == 5
                &&& forall|i: int| 0 <= i < 5 ==> is_ascii_alphanumeric(#[trigger] r.name@[i])
                &&& r.item_id == text_id(r.name@)
                &&& !r.editable
            },
            Content::Group(g) => {
                &&& r.attr matches Content::Group(h) && h.inner.0@ == g.inner.0@.push(*other)
                    && h.inner.1 == g.inner.1 && h.inner.2 == g.inner.2
                &&& same_but_attr(*r, *self)
            },
        }
    }

    proof fn lemma_merge_place(a: Self, b: Self, help: egui::TextureId, result: Self) {
    }

    proof fn lemma_merge_able(a: Self, b: Self, r: egui::Rect) {
    }

    fn get_content(&mut self) -> (r: ImageAttr) {
        let mut attr = Content::Group(GroupAttr::default());
        std::mem::swap(&mut attr, &mut self.attr);
        attr
    }

    fn is_single(&self) -> (r: bool) {
        match &self.attr {
            Content::Single(_) => true,
            Content::Group(_) => false,
        }
    }

    fn name(&self) -> (r: &str) {
        self.name.as_str()
    }

    fn merge_able(&self, _other: &Self) -> (r: bool) {
        true
    }

    fn merge(self, other_item: Self, texture_id: &egui::TextureId) -> (r: Self) {
        let mut s = self;
        if let Content::Group(grp) = &mut s.attr {
            grp.inner.0.push(other_item);
            return s;
        }
        let name = random_alphanumeric_string(5);
        let item_id = id_from_text(name.as_str());
        let rect = s.rect;
        let ghost gs = s;
        let ghost go = other_item;
        let mut row0: Vec<ImageItem> = Vec::new();
        row0.push(s);
        row0.push(other_item);
        assert(row0@ =~= seq![gs, go]);
        ImageItem {
            name,
            editable: false,
            item_id,
            rect,
            texture_id_tuple: (*texture_id, *texture_id),
            attr: Content::Group(GroupAttr { inner: (row0, Vec::new(), Vec::new()) }),
        }
    }
}

impl SplitMergeItem<ImageItem> for GroupAttr {
    open spec fn split_rows(&self, rows: Seq<Seq<ImageItem>>) -> bool {
        rows == rows_view(self.inner)
    }

    open spec fn can_split(&self) -> bool {
        true
    }

    open spec fn is_split_of(&self, before: &Self) -> bool {
        is_empty_group(*self)
    }

    /// The first two rows are taken back; the third row is handed out.
    open spec fn embed_result(
        &self,
        before: &Self,
        rows: Seq<Seq<ImageItem>>,
        out: Seq<ImageItem>,
    ) -> bool {
        &&& self.inner.0@ == rows[0]
        &&& self.inner.1@ == rows[1]
        &&& self.inner.2 == before.inner.2
        &&& out == rows[2]
    }

    open spec fn back_top_result(&self, parent: &ImageItem, result: &ImageItem) -> bool {
        &&& result.attr == Content::<SingleAttr, GroupAttr>::Group(*self)
        &&& same_but_attr(*result, *parent)
    }

    open spec fn can_hold(&self, parent: &ImageItem) -> bool {
        true
    }

    /// A single image is worth keeping, and so is a non-empty group.
    open spec fn is_valid_spec(outer: &ImageItem) -> bool {
        match outer.attr {
            Content::Single(_) => true,
            Content::Group(g) => group_len(g) != 0,
        }
    }

    open spec fn content_num_spec(&self) -> nat {
        self.inner.0@.len() + self.inner.1@.len()
    }

    fn split(&mut self) -> (r: [Vec<ImageItem>; 3]) {
        let mut inner = (Vec::new(), Vec::new(), Vec::new());
        std::mem::swap(&mut inner, &mut self.inner);
        let (a, b, c) = inner;
        [a, b, c]
    }

    fn embed(&mut self, vvec: [Vec<ImageItem>; 3]) -> (r: Vec<ImageItem>) {
        let mut vvec = vvec;
        let mut vec0 = Vec::new();
        let mut vec1 = Vec::new();
        let mut out = Vec::new();
        std::mem::swap(&mut vec0, &mut vvec[0]);
        std::mem::swap(&mut vec1, &mut vvec[1]);
        std::mem::swap(&mut out, &mut vvec[2]);
        self.inner.0 = vec0;
        self.inner.1 = vec1;
        out
    }

    fn back_top(self, parent: &mut ImageItem) {
        parent.attr = Content::Group(self);
    }

    fn is_valid(inner_type: &ImageItem) -> (r: bool) {
        match &inner_type.attr {
            Content::Single(_) => true,
            Content::Group(grp) => !(grp.inner.0.len() == 0 && grp.inner.1.len() == 0
                && grp.inner.2.len() == 0),
        }
    }

    fn content_num(&self) -> (r: usize) {
        self.inner.0.len() + self.inner.1.len()
    }
}

/// `n` is `o` renamed with the `k`-th name of `style`; a group keeps its
/// old name after an underscore, and its own items are renamed from the
/// position `start` of the same sequence.
pub open spec fn item_renamed(
    o: ImageItem,
    n: ImageItem,
    style: (u32, u32, u32),
    start: nat,
    k: nat,
) -> bool
    decreases o, 1int,
{
    &&& n.editable == o.editable
    &&& n.rect == o.rect
    &&& n.texture_id_tuple == o.texture_id_tuple
    &&& n.item_id == text_id(n.name@)
    &&& match o.attr {
        Content::Single(a) => n.attr == Content::<SingleAttr, GroupAttr>::Single(a) && n.name@
            == name_at(style, k),
        Content::Group(g) => n.attr matches Content::Group(h) && n.name@ == name_at(style, k)
            + seq!['_'] + o.name@ && rows_renamed(g.inner, h.inner, style, start),
    }
}

/// The items of row `n` are those of `o`, renamed with the names from
/// position `first` on.
pub open spec fn row_renamed(
    o: Seq<ImageItem>,
    n: Seq<ImageItem>,
    style: (u32, u32, u32),
    start: nat,
    first: nat,
) -> bool
    decreases o, 0int,
{
    &&& n.len() == o.len()
    &&& forall|j: int|
        0 <= j < o.len() ==> item_renamed(o[j], #[trigger] n[j], style, start, first + j as nat)
}

/// The first two rows are renamed one after the other from position
/// `start`; the third row is kept as it is.
pub open spec fn rows_renamed(
    o: Rows<ImageItem>,
    n: Rows<ImageItem>,
    style: (u32, u32, u32),
    start: nat,
) -> bool
    decreases o, 2int,
{
    &&& row_renamed(o.0@, n.0@, style, start, start)
    &&& row_renamed(o.1@, n.1@, style, start, start + o.0@.len())
    &&& n.2 == o.2
}

/// A sequence of `max` names, positioned at `start`, has enough names for
/// the first two rows of `r` and, from the same position, for every group
/// in them.
pub open spec fn names_suffice(r: Rows<ImageItem>, start: nat, max: nat) -> bool
    decreases r, 1int,
{
    &&& start + r.0@.len() + r.1@.len() <= max
    &&& row_suffice(r.0@, start, max)
    &&& row_suffice(r.1@, start, max)
}

pub open spec fn row_suffice(s: Seq<ImageItem>, start: nat, max: nat) -> bool
    decreases s, 0int,
{
    forall|j: int|
        0 <= j < s.len() ==> match #[trigger] s[j].attr {
            Content::Group(g) => names_suffice(g.inner, start, max),
            Content::Single(_) => true,
        }
}

/// Every group of `s` has enough names from `start` when its size, and the
/// size of every group nested in it, fit below `max`.
proof fn lemma_row_suffice(g: GroupAttr, s: Seq<ImageItem>, start: nat, max: nat)
    requires
        s == g.inner.0@ || s == g.inner.1@,
        start + seq_max_len(s, s.len() as int) <= max,
    ensures
        row_suffice(s, start, max),
    decreases g, 0int,
{
    assert forall|j: int| 0 <= j < s.len() implies match #[trigger] s[j].attr {
        Content::Group(h) => names_suffice(h.inner, start, max),
        Content::Single(_) => true,
    } by {
        lemma_seq_max_len(s, s.len() as int, j);
        if let Content::Group(h) = s[j].attr {
            assert(decreases_to!(g => g.inner));
            if s == g.inner.0@ {
                assert(decreases_to!(g.inner => g.inner.0));
                assert(decreases_to!(g.inner.0 => g.inner.0@));
            } else {
                assert(decreases_to!(g.inner => g.inner.1));
                assert(decreases_to!(g.inner.1 => g.inner.1@));
            }
            assert(decreases_to!(s => s[j]));
            assert(decreases_to!(s[j] => s[j].attr));
            assert(decreases_to!(s[j].attr => h));
            assert(decreases_to!(g => h));
            lemma_max_len_suffices(h, start, max);
        }
    }
}

/// A name sequence positioned at `start` that has room for the largest
/// group within `g` renames `g` without running out of names.
pub proof fn lemma_max_len_suffices(g: GroupAttr, start: nat, max: nat)
    requires
        start + group_max_len(g) <= max,
    ensures
        names_suffice(g.inner, start, max),
    decreases g, 1int,
{
    lemma_row_suffice(g, g.inner.0@, start, max);
    lemma_row_suffice(g, g.inner.1@, start, max);
}

/// Renames the first two rows of `vvec`, and the groups in them, with the
/// names of `idx_name`: each item takes the next name (a group puts it in
/// front of its own name), and the items of a group are named again from
/// where `idx_name` started.
pub fn rename_inner_layer(idx_name: IndexName, vvec: &mut Rows<ImageItem>)
    requires
        idx_name.wf(),
        names_suffice(*old(vvec), idx_name.now_num as nat, idx_name.max_size as nat),
    ensures
        rows_renamed(*old(vvec), *final(vvec), idx_name.style, idx_name.now_num as nat),
    decreases *old(vvec), 2int,
{
    let cloned = idx_name.clone();
    let mut idx_name = idx_name;
    let ghost first = idx_name.now_num;
    rename_row(&mut idx_name, &cloned, &mut vvec.0);
    rename_row(&mut idx_name, &cloned, &mut vvec.1);
}

/// Renames the items of one row with the names that follow in `idx`.
fn rename_row(idx: &mut IndexName, cloned: &IndexName, row: &mut Vec<ImageItem>)
    requires
        old(idx).wf(),
        cloned.wf(),
        cloned.style == old(idx).style,
        cloned.max_size == old(idx).max_size,
        old(idx).now_num + old(row)@.len() <= old(idx).max_size,
        row_suffice(old(row)@, cloned.now_num as nat, cloned.max_size as nat),
    ensures
        final(idx).wf(),
        final(idx).style == old(idx).style,
        final(idx).max_size == old(idx).max_size,
        final(idx).now_num == old(idx).now_num + old(row)@.len(),
        row_renamed(old(row)@, final(row)@, old(idx).style, cloned.now_num as nat, old(idx).now_num as nat),
    decreases old(row)@, 1int,
{
    let ghost orig = row@;
    let ghost first = idx.now_num as nat;
    let n = row.len();
    for j in 0..n
        invariant
            n == orig.len(),
            orig == old(row)@,
            row@.len() == n,
            idx.wf(),
            cloned.wf(),
            idx.style == old(idx).style,
            idx.max_size == old(idx).max_size,
            cloned.style == old(idx).style,
            cloned.max_size == old(idx).max_size,
            idx.now_num == first + j,
            first + n <= idx.max_size,
            row_suffice(orig, cloned.now_num as nat, cloned.max_size as nat),
            forall|i: int| j <= i < n ==> #[trigger] row@[i] == orig[i],
            forall|i: int|
                0 <= i < j ==> item_renamed(orig[i], #[trigger] row@[i], idx.style, cloned.now_num as nat, first + i as nat),
    {
        let mut item = ImageItem::default();
        std::mem::swap(&mut item, &mut row[j]);
        assert(item == orig[j as int]);
        assert(decreases_to!(orig => orig[j as int]));
        let item = rename_item(idx, cloned, item);
        row.set(j, item);
    }
}

/// Gives `item` the next name of `idx`; a group keeps its old name after
/// an underscore and has its own items renamed from where `cloned` stands.
pub(crate) fn rename_item(idx: &mut IndexName, cloned: &IndexName, item: ImageItem) -> (r: ImageItem)
    requires
        old(idx).wf(),
        cloned.wf(),
        cloned.style == old(idx).style,
        cloned.max_size == old(idx).max_size,
        old(idx).now_num < old(idx).max_size,
        item.attr matches Content::Group(g) ==> names_suffice(g.inner, cloned.now_num as nat, cloned.max_size as nat),
    ensures
        final(idx).wf(),
        final(idx).style == old(idx).style,
        final(idx).max_size == old(idx).max_size,
        final(idx).now_num == old(idx).now_num + 1,
        item_renamed(item, r, old(idx).style, cloned.now_num as nat, old(idx).now_num as nat),
    decreases item, 0int,
{
    let mut item = item;
    let ghost oi = item;
    proof {
        lemma_wf_can_step(&*idx);
    }
    let new_name = idx.next().unwrap();
    if item.is_single() {
        item.name = new_name;
    } else {
        let mut old_name = String::new();
        std::mem::swap(&mut old_name, &mut item.name);
        let mut name = new_name;
        name.append("_");
        name.append(old_name.as_str());
        item.name = name;
        assert(item.name@ =~= name_at(old(idx).style, old(idx).now_num as nat) + seq!['_'] + oi.name@) by {
            reveal_strlit("_");
        }
        let mut attr = Content::Group(GroupAttr::default());
        std::mem::swap(&mut attr, &mut item.attr);
        if let Content::Group(mut grp) = attr {
            proof {
                assert(decreases_to!(oi => oi.attr));
                assert(decreases_to!(oi.attr => grp));
                assert(decreases_to!(grp => grp.inner));
                assert(decreases_to!(oi => grp.inner));
            }
            rename_inner_layer(cloned.clone(), &mut grp.inner);
            item.attr = Content::Group(grp);
        } else {
            item.attr = attr;
        }
    }
    item.update_id();
    item
}

} // verus!
