//! The data of the main view: the three panels of items of the layer that
//! is shown (the main panel, the assist panel and the panel of items that
//! are not renamed), the layers that were left to open a group, and what is
//! kept to find the files of the loaded images again. Where the panels are
//! drawn and how they scroll is left to the window.
use vstd::prelude::*;
use crate::dir::rfind;
use crate::egui_types::{debug_texture_id, texture_id_eq, texture_id_text, text_id};
use crate::image_item::{
    GroupAttr,
    ImageItem,
    SingleAttr,
    default_texture_id,
    is_empty_group,
    item_max_len,
    lemma_max_len_suffices,
    group_max_len,
    max_nat,
    names_suffice,
    seq_max_len,
    same_but_attr,
};
use crate::related_struct::{Event, Position};
use crate::vec_ops::{drop_target, dropped, moved, removed, vec_process_with_id_output, vec_remove_item};
use crate::idx_name::IndexName;
use crate::mix_item::{
    LoadEnum,
    LoadState,
    boxed,
    count_done,
    load_names_suffice,
    load_row_suffice,
    load_row_renamed,
    only_images,
    rename_load_inner,
};
use crate::self_trait::{Content, DragItem, IntoContent, PosItem, SplitMergeItem};
use vstd::string::StringExecFns;

verus! {

/// A layer that was left to open the group at `pos`, with the name its
/// third panel had.
pub struct OuterStack {
    pub data: [Vec<LoadState>; 3],
    pub pos: (usize, usize),
    pub del_name: String,
}

/// What is kept of a loaded image to find its file again: the file name and
/// the extension, by the identifier of the thumbnail.
pub type ProofEntry = (egui::TextureId, LoadEnum<(String, String), ()>);

pub struct MainStruct {
    /// The three panels of the layer that is shown.
    pub data_list: [Vec<LoadState>; 3],
    /// The layers that were left, the first one at the bottom.
    pub info_stack: Vec<OuterStack>,
    /// What is kept of each loaded image, by texture.
    pub proof_hash: Vec<ProofEntry>,
    /// The texture that shows a group.
    pub merged_used: egui::TextureId,
    /// The name of the third panel.
    pub unrename_name: String,
}

/// No identifier occurs twice.
pub open spec fn keys_distinct(s: Seq<ProofEntry>) -> bool {
    forall|i: int, j: int| 0 <= i < j < s.len() ==> #[trigger] s[i].0 != #[trigger] s[j].0
}

pub open spec fn has_key(s: Seq<ProofEntry>, k: egui::TextureId) -> bool {
    exists|i: int| 0 <= i < s.len() && #[trigger] s[i].0 == k
}

/// Every item of `s` is a loaded image.
pub open spec fn all_done(s: Seq<LoadState>) -> bool {
    forall|j: int| 0 <= j < s.len() ==> #[trigger] s[j] is LoadDone
}

pub open spec fn layer_done(d: [Vec<LoadState>; 3]) -> bool {
    &&& all_done(d[0]@)
    &&& all_done(d[1]@)
    &&& all_done(d[2]@)
}

/// The layer was left through a loaded group at `pos`, which was emptied.
pub open spec fn entry_ok(e: OuterStack) -> bool {
    &&& e.pos.0 < 3
    &&& e.pos.1 < e.data[e.pos.0 as int]@.len()
    &&& e.data[e.pos.0 as int]@[e.pos.1 as int] matches LoadState::LoadDone(img)
        && img.attr matches Content::Group(g) && is_empty_group(g)
}

/// The loading item of `s` named `name`.
pub open spec fn is_loading_named(x: LoadState, name: Seq<char>) -> bool {
    x matches LoadState::Loading(t) && t.string@ == name
}

/// `j` is the first loading item of `s` named `name`.
pub open spec fn first_loading(s: Seq<LoadState>, name: Seq<char>, j: int) -> bool {
    &&& 0 <= j < s.len()
    &&& is_loading_named(s[j], name)
    &&& forall|i: int| 0 <= i < j ==> !is_loading_named(#[trigger] s[i], name)
}

/// The image item that a loading item becomes.
pub open spec fn loaded(
    x: LoadState,
    thumb: egui::TextureId,
    full: egui::TextureId,
    dimension: [usize; 2],
) -> LoadState {
    match x {
        LoadState::Loading(t) => LoadState::LoadDone(
            ImageItem {
                name: t.string,
                editable: false,
                item_id: text_id(t.string@),
                rect: t.rect,
                texture_id_tuple: (thumb, full),
                attr: Content::<SingleAttr, GroupAttr>::Single(dimension),
            },
        ),
        _ => x,
    }
}

/// The failed item that a loading item becomes.
pub open spec fn failed(x: LoadState) -> LoadState {
    match x {
        LoadState::Loading(t) => LoadState::LoadErr(
            crate::test_text::TextItemPos { string: t.string, id: t.id, rect: t.rect, editable: t.editable },
        ),
        _ => x,
    }
}

/// Turns the first loading item of `row` named `name` into the image item
/// of its image, and returns its file name and extension.
fn load_in_row(
    row: &mut Vec<LoadState>,
    name: &str,
    thumb: egui::TextureId,
    full: egui::TextureId,
    dimension: [usize; 2],
) -> (r: Option<(String, String)>)
    requires
        (exists|j: int| first_loading(old(row)@, name@, j)) ==> rfind(name@, '.') is Some,
    ensures
        r is Some <==> exists|j: int| first_loading(old(row)@, name@, j),
        r is None ==> final(row)@ == old(row)@,
        forall|j: int|
            first_loading(old(row)@, name@, j) ==> final(row)@ == old(row)@.update(
                j,
                loaded(old(row)@[j], thumb, full, dimension),
            ),
        r matches Some(p) ==> p.0@ == name@ && p.1@ == crate::mix_item::extension(name@),
{
    let n = row.len();
    for j in 0..n
        invariant
            n == row@.len(),
            row@ == old(row)@,
            (exists|i: int| first_loading(old(row)@, name@, i)) ==> rfind(name@, '.') is Some,
            forall|i: int| 0 <= i < j ==> !is_loading_named(#[trigger] row@[i], name@),
    {
        if row[j].is_loading() && crate::dir::str_eq(row[j].name(), name) {
            let ghost before = row@;
            assert(first_loading(before, name@, j as int));
            let mut item = LoadState::LoadErr(crate::test_text::TextItemPos::from_str(String::new()));
            std::mem::swap(&mut item, &mut row[j]);
            let p = item.load_image(thumb, full, dimension);
            row.set(j, item);
            proof {
                assert(first_loading(before, name@, j as int));
                assert forall|k: int| first_loading(before, name@, k) implies k == j by {
                    if k < j {
                    } else if k > j {
                        assert(!is_loading_named(before[j as int], name@));
                    }
                }
                assert(row@ =~= before.update(j as int, loaded(before[j as int], thumb, full, dimension)));
            }
            return Some(p);
        }
    }
    proof {
        assert forall|k: int| !first_loading(old(row)@, name@, k) by {
        }
    }
    None
}

/// Turns the first loading item of `row` named `name` into a failed one.
fn err_in_row(row: &mut Vec<LoadState>, name: &str) -> (r: bool)
    ensures
        r <==> exists|j: int| first_loading(old(row)@, name@, j),
        !r ==> final(row)@ == old(row)@,
        forall|j: int|
            first_loading(old(row)@, name@, j) ==> final(row)@ == old(row)@.update(
                j,
                failed(old(row)@[j]),
            ),
{
    let n = row.len();
    for j in 0..n
        invariant
            n == row@.len(),
            row@ == old(row)@,
            forall|i: int| 0 <= i < j ==> !is_loading_named(#[trigger] row@[i], name@),
    {
        if row[j].is_loading() && crate::dir::str_eq(row[j].name(), name) {
            let ghost before = row@;
            let mut item = LoadState::LoadErr(crate::test_text::TextItemPos::from_str(String::new()));
            std::mem::swap(&mut item, &mut row[j]);
            item.err_load();
            row.set(j, item);
            proof {
                assert(first_loading(before, name@, j as int));
                assert forall|k: int| first_loading(before, name@, k) implies k == j by {
                    if k < j {
                    } else if k > j {
                        assert(!is_loading_named(before[j as int], name@));
                    }
                }
                assert(row@ =~= before.update(j as int, failed(before[j as int])));
            }
            return true;
        }
    }
    false
}

/// Adds `value` under `key` unless something is kept under `key` already.
fn insert_if_absent(
    store: &mut Vec<ProofEntry>,
    key: egui::TextureId,
    value: LoadEnum<(String, String), ()>,
)
    requires
        keys_distinct(old(store)@),
    ensures
        keys_distinct(final(store)@),
        has_key(old(store)@, key) ==> final(store)@ == old(store)@,
        !has_key(old(store)@, key) ==> final(store)@ == old(store)@.push((key, value)),
{
    let n = store.len();
    for i in 0..n
        invariant
            n == store@.len(),
            store@ == old(store)@,
            keys_distinct(store@),
            forall|k: int| 0 <= k < i ==> #[trigger] store@[k].0 != key,
    {
        if texture_id_eq(&store[i].0, &key) {
            return;
        }
    }
    store.push((key, value));
}

/// `after` is `before`, with the file name and extension of the image
/// named `name` added under `key` if nothing was kept under `key`.
pub open spec fn kept_after_load(
    before: Seq<ProofEntry>,
    after: Seq<ProofEntry>,
    key: egui::TextureId,
    name: Seq<char>,
) -> bool {
    if has_key(before, key) {
        after == before
    } else {
        &&& after.len() == before.len() + 1
        &&& after.take(before.len() as int) == before
        &&& after.last().0 == key
        &&& after.last().1 matches LoadEnum::Img(p) && p.0@ == name && p.1@
            == crate::mix_item::extension(name)
    }
}

/// The items of the first layer: the main panel of the bottom layer.
pub open spec fn first_layer(m: MainStruct) -> Seq<LoadState> {
    if m.info_stack@.len() > 0 {
        m.info_stack@[0].data[0]@
    } else {
        m.data_list[0]@
    }
}

/// The largest group size within the loaded groups of `s` (zero when it
/// holds none).
pub open spec fn load_max_len(s: Seq<LoadState>) -> nat
    decreases s.len(),
{
    if s.len() == 0 {
        0
    } else {
        max_nat(
            load_max_len(s.drop_last()),
            match s.last() {
                LoadState::LoadDone(img) => item_max_len(img),
                _ => 0,
            },
        )
    }
}

/// What the layers `k - 1` down to `0` of `st` add to the largest number of
/// names a save can need, when the layer above them has `del` loaded images
/// in its third panel: those images come back to the assist panel of the
/// layer below, and the third panel of the bottom layer is not saved.
pub open spec fn stack_max_len(st: Seq<OuterStack>, k: int, del: nat) -> nat
    decreases k,
{
    if k <= 0 {
        0
    } else {
        let d = st[k - 1].data;
        let here = max_nat(
            del + count_done(d[0]@) + count_done(d[1]@),
            max_nat(load_max_len(d[0]@), load_max_len(d[1]@)),
        );
        let here2 = if k - 1 != 0 {
            max_nat(here, load_max_len(d[2]@))
        } else {
            here
        };
        max_nat(here2, stack_max_len(st, k - 1, count_done(d[2]@)))
    }
}

proof fn lemma_count_done_le(s: Seq<LoadState>)
    ensures
        count_done(s) <= s.len(),
    decreases s.len(),
{
    if s.len() > 0 {
        lemma_count_done_le(s.drop_last());
    }
}

proof fn lemma_load_max_len_take(s: Seq<LoadState>, j: int)
    requires
        0 <= j <= s.len(),
    ensures
        load_max_len(s.take(j)) <= load_max_len(s),
    decreases s.len(),
{
    if j < s.len() {
        assert(s.take(j) == s.drop_last().take(j));
        lemma_load_max_len_take(s.drop_last(), j);
    } else {
        assert(s.take(j) == s);
    }
}

/// The number of loaded images of a panel.
fn count_loaded(row: &Vec<LoadState>) -> (r: usize)
    ensures
        r == count_done(row@),
{
    let n = row.len();
    let mut c: usize = 0;
    for j in 0..n
        invariant
            n == row@.len(),
            c == count_done(row@.take(j as int)),
    {
        assert(row@.take(j + 1).drop_last() == row@.take(j as int));
        proof {
            lemma_count_done_le(row@.take(j as int));
        }
        if row[j].is_loaddone() {
            c = c + 1;
        }
    }
    assert(row@.take(n as int) == row@);
    c
}

/// The largest group size within the loaded groups of a panel.
fn row_load_max_len(row: &Vec<LoadState>) -> (r: usize)
    requires
        load_max_len(row@) <= usize::MAX,
    ensures
        r == load_max_len(row@),
{
    let n = row.len();
    let mut best: usize = 0;
    for j in 0..n
        invariant
            n == row@.len(),
            load_max_len(row@) <= usize::MAX,
            best == load_max_len(row@.take(j as int)),
    {
        assert(row@.take(j + 1).drop_last() == row@.take(j as int));
        proof {
            lemma_load_max_len_take(row@, j + 1);
        }
        let m = match &row[j] {
            LoadState::LoadDone(img) => match &img.attr {
                Content::Single(_) => 0,
                Content::Group(grp) => grp.max_len(),
            },
            _ => 0,
        };
        if m > best {
            best = m;
        }
    }
    assert(row@.take(n as int) == row@);
    best
}

/// Row `after` is the row `before` of a layer that was left through the
/// group at `i`, once that group takes back the rows `r0` and `r1` of the
/// layer inside it: the group holds their images, and an empty group is
/// taken out of the row.
pub open spec fn closed_row(before: Seq<LoadState>, i: int, after: Seq<LoadState>, r0: Seq<LoadState>, r1: Seq<LoadState>) -> bool {
    if only_images(r0).len() + only_images(r1).len() > 0 {
        &&& after.len() == before.len()
        &&& forall|j: int| 0 <= j < before.len() && j != i ==> #[trigger] after[j] == before[j]
        &&& before[i] matches LoadState::LoadDone(old_img)
        &&& after[i] matches LoadState::LoadDone(img)
        &&& same_but_attr(img, old_img)
        &&& old_img.attr matches Content::Group(g)
        &&& img.attr matches Content::Group(h)
        &&& h.inner.0@ == only_images(r0)
        &&& h.inner.1@ == only_images(r1)
        &&& h.inner.2 == g.inner.2
    } else {
        after == removed(before, i)
    }
}

/// `new` is `old` with its top layer closed: the layer below comes back,
/// the group it was left through takes back the images of the main and
/// assist panels, the images of the third panel go to the end of the
/// assist panel below, and the third panel gets its name back.
pub open spec fn popped(old: MainStruct, new: MainStruct) -> bool {
    let e = old.info_stack@.last();
    let (p, i) = (e.pos.0 as int, e.pos.1 as int);
    let d = old.data_list;
    let out = boxed(only_images(d[2]@));
    let base = |q: int| if q == p {
        new.data_list[q]@.take(e.data[q]@.len() - if only_images(d[0]@).len() + only_images(d[1]@).len() > 0 { 0int } else { 1int })
    } else {
        e.data[q]@
    };
    &&& new.info_stack@ == old.info_stack@.drop_last()
    &&& new.unrename_name == e.del_name
    &&& new.proof_hash == old.proof_hash
    &&& new.merged_used == old.merged_used
    &&& closed_row(e.data[p]@, i, base(p), d[0]@, d[1]@)
    &&& new.data_list[0]@ == base(0)
    &&& new.data_list[1]@ == base(1) + out
    &&& new.data_list[2]@ == base(2)
}

/// What a save finds a file by: the thumbnail, the file name and the
/// extension.
pub type ImageProof = (egui::TextureId, (String, String));

/// The texts of what a save finds files by.
pub open spec fn proof_view(m: Seq<ImageProof>) -> Seq<(egui::TextureId, Seq<char>, Seq<char>)> {
    m.map_values(|e: ImageProof| (e.0, e.1.0@, e.1.1@))
}

/// The entries of `s` kept for loaded images, in order.
pub open spec fn image_entries(s: Seq<ProofEntry>) -> Seq<(egui::TextureId, Seq<char>, Seq<char>)>
    decreases s.len(),
{
    if s.len() == 0 {
        Seq::empty()
    } else {
        match s.last().1 {
            LoadEnum::Img(p) => image_entries(s.drop_last()).push((s.last().0, p.0@, p.1@)),
            LoadEnum::Str(_) => image_entries(s.drop_last()),
        }
    }
}

/// The file name and extension kept first for the texture `id`.
pub open spec fn lookup(m: Seq<(egui::TextureId, Seq<char>, Seq<char>)>, id: egui::TextureId) -> Option<(Seq<char>, Seq<char>)>
    decreases m.len(),
{
    if m.len() == 0 {
        None
    } else if m[0].0 == id {
        Some((m[0].1, m[0].2))
    } else {
        lookup(m.skip(1), id)
    }
}

/// The name of an item inside a group named `prefix`.
pub open spec fn prefixed(prefix: Seq<char>, name: Seq<char>) -> Seq<char> {
    if prefix.len() != 0 {
        prefix + seq!['_'] + name
    } else {
        name
    }
}

/// The message of an image whose file cannot be found again.
pub open spec fn missing_message(id: egui::TextureId) -> Seq<char> {
    "can not find saved data for: "@ + texture_id_text(id)
}

/// The copies (from the old path to the new one) that saving `it` under
/// `prefix` makes, in order, and the message of the first image whose file
/// cannot be found, where the copies stop.
pub open spec fn copy_item(
    it: ImageItem,
    m: Seq<(egui::TextureId, Seq<char>, Seq<char>)>,
    prefix: Seq<char>,
    new_dir: Seq<char>,
    old_dir: Seq<char>,
) -> (Seq<(Seq<char>, Seq<char>)>, Option<Seq<char>>)
    decreases it, 0int,
{
    let name = prefixed(prefix, it.name@);
    match it.attr {
        Content::Single(_) => match lookup(m, it.texture_id_tuple.0) {
            Some((orig, ext)) => (seq![(old_dir + orig, new_dir + name + seq!['.'] + ext)], None),
            None => (Seq::empty(), Some(missing_message(it.texture_id_tuple.0))),
        },
        Content::Group(g) => {
            let (a0, e0) = copy_seq(g.inner.0@, g.inner.0@.len() as int, m, name, new_dir, old_dir);
            if e0 is Some {
                (a0, e0)
            } else {
                let (a1, e1) = copy_seq(g.inner.1@, g.inner.1@.len() as int, m, name, new_dir, old_dir);
                if e1 is Some {
                    (a0 + a1, e1)
                } else {
                    let (a2, e2) = copy_seq(g.inner.2@, g.inner.2@.len() as int, m, name, new_dir, old_dir);
                    (a0 + a1 + a2, e2)
                }
            }
        },
    }
}

/// The copies that saving the first `n` items of `s` makes, stopping at the
/// first image whose file cannot be found.
pub open spec fn copy_seq(
    s: Seq<ImageItem>,
    n: int,
    m: Seq<(egui::TextureId, Seq<char>, Seq<char>)>,
    prefix: Seq<char>,
    new_dir: Seq<char>,
    old_dir: Seq<char>,
) -> (Seq<(Seq<char>, Seq<char>)>, Option<Seq<char>>)
    decreases s, n,
{
    if n <= 0 || n > s.len() {
        (Seq::empty(), None)
    } else {
        let (a, e) = copy_seq(s, n - 1, m, prefix, new_dir, old_dir);
        if e is Some {
            (a, e)
        } else {
            let (b, e2) = copy_item(s[n - 1], m, prefix, new_dir, old_dir);
            (a + b, e2)
        }
    }
}

/// The texts of a list of copies.
pub open spec fn pairs_view(s: Seq<(String, String)>) -> Seq<(Seq<char>, Seq<char>)> {
    s.map_values(|p: (String, String)| (p.0@, p.1@))
}

/// Where the file name and extension of the texture `id` are kept.
fn find_image_proof(m: &Vec<ImageProof>, id: &egui::TextureId) -> (r: Option<usize>)
    ensures
        r matches Some(k) ==> k < m@.len() && lookup(proof_view(m@), *id) == Some((m@[k as int].1.0@, m@[k as int].1.1@)),
        r is None ==> lookup(proof_view(m@), *id) is None,
{
    let ghost pv = proof_view(m@);
    let n = m.len();
    assert(pv.skip(0) =~= pv);
    for i in 0..n
        invariant
            n == m@.len(),
            pv == proof_view(m@),
            lookup(pv, *id) == lookup(pv.skip(i as int), *id),
    {
        let ghost t = pv.skip(i as int);
        assert(t[0] == pv[i as int]);
        assert(t.skip(1) =~= pv.skip(i + 1));
        if texture_id_eq(&m[i].0, id) {
            return Some(i);
        }
    }
    assert(pv.skip(n as int) =~= Seq::<(egui::TextureId, Seq<char>, Seq<char>)>::empty());
    None
}

impl ImageItem {
    /// Lists the copies that save this item under `prefix` into `new_dir`
    /// (see `copy_item`), after those already in `copies`; fails with the
    /// message of the first image whose file cannot be found.
    pub fn copy_rename(
        &self,
        proof_hash: &Vec<ImageProof>,
        prefix: &str,
        new_dir: &str,
        old_dir: &str,
        copies: &mut Vec<(String, String)>,
    ) -> (r: Result<(), String>)
        ensures
            pairs_view(final(copies)@) == pairs_view(old(copies)@) + copy_item(*self, proof_view(proof_hash@), prefix@, new_dir@, old_dir@).0,
            r is Err <==> copy_item(*self, proof_view(proof_hash@), prefix@, new_dir@, old_dir@).1 is Some,
            r matches Err(msg) ==> copy_item(*self, proof_view(proof_hash@), prefix@, new_dir@, old_dir@).1 == Some(msg@),
        decreases *self, 1int,
    {
        let mut name = String::new();
        if !prefix.is_empty() {
            name.append(prefix);
            name.append("_");
        }
        name.append(self.name.as_str());
        proof {
            reveal_strlit("_");
            assert(name@ =~= prefixed(prefix@, self.name@));
        }
        match &self.attr {
            Content::Single(_) => {
                let id = self.texture_id_tuple.0;
                match find_image_proof(proof_hash, &id) {
                    Some(k) => {
                        let mut new_name = String::from_str(new_dir);
                        new_name.append(name.as_str());
                        new_name.append(".");
                        new_name.append(proof_hash[k].1.1.as_str());
                        let mut old_name = String::from_str(old_dir);
                        old_name.append(proof_hash[k].1.0.as_str());
                        let ghost before = copies@;
                        copies.push((old_name, new_name));
                        proof {
                            reveal_strlit(".");
                            let pv = proof_view(proof_hash@);
                            assert(lookup(pv, id) == Some((proof_hash@[k as int].1.0@, proof_hash@[k as int].1.1@)));
                            assert(new_name@ =~= new_dir@ + name@ + seq!['.'] + proof_hash@[k as int].1.1@);
                            assert(old_name@ =~= old_dir@ + proof_hash@[k as int].1.0@);
                            assert(copy_item(*self, pv, prefix@, new_dir@, old_dir@).0 == seq![(old_name@, new_name@)]);
                            assert(pairs_view(copies@) =~= pairs_view(before) + seq![(old_name@, new_name@)]);
                        }
                        Ok(())
                    },
                    None => {
                        let mut msg = String::from_str("can not find saved data for: ");
                        let text = debug_texture_id(&id);
                        msg.append(text.as_str());
                        proof {
                            assert(pairs_view(copies@) =~= pairs_view(copies@) + Seq::<(Seq<char>, Seq<char>)>::empty());
                        }
                        Err(msg)
                    },
                }
            },
            Content::Group(grp) => {
                proof {
                    assert(decreases_to!(*self => self.attr));
                }
                let r0 = copy_row(&grp.inner.0, proof_hash, name.as_str(), new_dir, old_dir, copies);
                if r0.is_err() {
                    return r0;
                }
                let r1 = copy_row(&grp.inner.1, proof_hash, name.as_str(), new_dir, old_dir, copies);
                if r1.is_err() {
                    return r1;
                }
                copy_row(&grp.inner.2, proof_hash, name.as_str(), new_dir, old_dir, copies)
            },
        }
    }
}

/// Once a file cannot be found, no more copies are listed.
proof fn lemma_copy_seq_stop(
    s: Seq<ImageItem>,
    k: int,
    n: int,
    m: Seq<(egui::TextureId, Seq<char>, Seq<char>)>,
    prefix: Seq<char>,
    new_dir: Seq<char>,
    old_dir: Seq<char>,
)
    requires
        0 < k <= n <= s.len(),
        copy_seq(s, k, m, prefix, new_dir, old_dir).1 is Some,
    ensures
        copy_seq(s, n, m, prefix, new_dir, old_dir) == copy_seq(s, k, m, prefix, new_dir, old_dir),
    decreases n - k,
{
    if k < n {
        lemma_copy_seq_stop(s, k, n - 1, m, prefix, new_dir, old_dir);
    }
}

/// Lists the copies that save the items of `row` under `prefix`, in order,
/// stopping at the first image whose file cannot be found.
fn copy_row(
    row: &Vec<ImageItem>,
    proof_hash: &Vec<ImageProof>,
    prefix: &str,
    new_dir: &str,
    old_dir: &str,
    copies: &mut Vec<(String, String)>,
) -> (r: Result<(), String>)
    ensures
        pairs_view(final(copies)@) == pairs_view(old(copies)@) + copy_seq(row@, row@.len() as int, proof_view(proof_hash@), prefix@, new_dir@, old_dir@).0,
        r is Err <==> copy_seq(row@, row@.len() as int, proof_view(proof_hash@), prefix@, new_dir@, old_dir@).1 is Some,
        r matches Err(msg) ==> copy_seq(row@, row@.len() as int, proof_view(proof_hash@), prefix@, new_dir@, old_dir@).1 == Some(msg@),
    decreases row@, 0int,
{
    let ghost m = proof_view(proof_hash@);
    let ghost start = pairs_view(copies@);
    let n = row.len();
    assert(pairs_view(copies@) =~= start + copy_seq(row@, 0, m, prefix@, new_dir@, old_dir@).0);
    for j in 0..n
        invariant
            n == row@.len(),
            m == proof_view(proof_hash@),
            start == pairs_view(old(copies)@),
            copy_seq(row@, j as int, m, prefix@, new_dir@, old_dir@).1 is None,
            pairs_view(copies@) == start + copy_seq(row@, j as int, m, prefix@, new_dir@, old_dir@).0,
    {
        assert(decreases_to!(row@ => row@[j as int]));
        let ghost before = pairs_view(copies@);
        let r = row[j].copy_rename(proof_hash, prefix, new_dir, old_dir, copies);
        proof {
            assert(pairs_view(copies@) =~= start + copy_seq(row@, j + 1, m, prefix@, new_dir@, old_dir@).0);
        }
        if r.is_err() {
            proof {
                lemma_copy_seq_stop(row@, j + 1, n as int, m, prefix@, new_dir@, old_dir@);
            }
            return r;
        }
    }
    Ok(())
}

/// The copies that saving the loaded images among the first `n` items of a
/// panel makes, stopping at the first image whose file cannot be found.
pub open spec fn copy_loads(
    s: Seq<LoadState>,
    n: int,
    m: Seq<(egui::TextureId, Seq<char>, Seq<char>)>,
    new_dir: Seq<char>,
    old_dir: Seq<char>,
) -> (Seq<(Seq<char>, Seq<char>)>, Option<Seq<char>>)
    decreases n,
{
    if n <= 0 || n > s.len() {
        (Seq::empty(), None)
    } else {
        let (a, e) = copy_loads(s, n - 1, m, new_dir, old_dir);
        if e is Some {
            (a, e)
        } else {
            match s[n - 1] {
                LoadState::LoadDone(img) => {
                    let (b, e2) = copy_item(img, m, Seq::empty(), new_dir, old_dir);
                    (a + b, e2)
                },
                _ => (a, e),
            }
        }
    }
}

/// The copies that saving the main and assist panels makes.
pub open spec fn save_copies(
    r0: Seq<LoadState>,
    r1: Seq<LoadState>,
    m: Seq<(egui::TextureId, Seq<char>, Seq<char>)>,
    new_dir: Seq<char>,
    old_dir: Seq<char>,
) -> (Seq<(Seq<char>, Seq<char>)>, Option<Seq<char>>) {
    let (a0, e0) = copy_loads(r0, r0.len() as int, m, new_dir, old_dir);
    if e0 is Some {
        (a0, e0)
    } else {
        let (a1, e1) = copy_loads(r1, r1.len() as int, m, new_dir, old_dir);
        (a0 + a1, e1)
    }
}

proof fn lemma_copy_loads_stop(
    s: Seq<LoadState>,
    k: int,
    n: int,
    m: Seq<(egui::TextureId, Seq<char>, Seq<char>)>,
    new_dir: Seq<char>,
    old_dir: Seq<char>,
)
    requires
        0 < k <= n <= s.len(),
        copy_loads(s, k, m, new_dir, old_dir).1 is Some,
    ensures
        copy_loads(s, n, m, new_dir, old_dir) == copy_loads(s, k, m, new_dir, old_dir),
    decreases n - k,
{
    if k < n {
        lemma_copy_loads_stop(s, k, n - 1, m, new_dir, old_dir);
    }
}

/// Lists the copies that save the loaded images of a panel.
fn copy_load_row(
    row: &Vec<LoadState>,
    proof_hash: &Vec<ImageProof>,
    new_dir: &str,
    old_dir: &str,
    copies: &mut Vec<(String, String)>,
) -> (r: Result<(), String>)
    ensures
        pairs_view(final(copies)@) == pairs_view(old(copies)@) + copy_loads(row@, row@.len() as int, proof_view(proof_hash@), new_dir@, old_dir@).0,
        r is Err <==> copy_loads(row@, row@.len() as int, proof_view(proof_hash@), new_dir@, old_dir@).1 is Some,
        r matches Err(msg) ==> copy_loads(row@, row@.len() as int, proof_view(proof_hash@), new_dir@, old_dir@).1 == Some(msg@),
{
    let ghost m = proof_view(proof_hash@);
    let ghost start = pairs_view(copies@);
    let n = row.len();
    assert(pairs_view(copies@) =~= start + copy_loads(row@, 0, m, new_dir@, old_dir@).0);
    let empty = String::new();
    for j in 0..n
        invariant
            n == row@.len(),
            m == proof_view(proof_hash@),
            empty@.len() == 0,
            start == pairs_view(old(copies)@),
            copy_loads(row@, j as int, m, new_dir@, old_dir@).1 is None,
            pairs_view(copies@) == start + copy_loads(row@, j as int, m, new_dir@, old_dir@).0,
    {
        if let LoadState::LoadDone(img) = &row[j] {
            let r = img.copy_rename(proof_hash, empty.as_str(), new_dir, old_dir, copies);
            proof {
                assert(empty@ =~= Seq::<char>::empty());
                assert(pairs_view(copies@) =~= start + copy_loads(row@, j + 1, m, new_dir@, old_dir@).0);
            }
            if r.is_err() {
                proof {
                    lemma_copy_loads_stop(row@, j + 1, n as int, m, new_dir@, old_dir@);
                }
                return r;
            }
        }
    }
    Ok(())
}

/// What is kept of the loaded images, in order.
fn image_proofs(store: &Vec<ProofEntry>) -> (r: Vec<ImageProof>)
    ensures
        proof_view(r@) == image_entries(store@),
{
    let n = store.len();
    let mut res: Vec<ImageProof> = Vec::new();
    for j in 0..n
        invariant
            n == store@.len(),
            proof_view(res@) == image_entries(store@.take(j as int)),
    {
        assert(store@.take(j + 1).drop_last() =~= store@.take(j as int));
        assert(store@.take(j + 1).last() == store@[j as int]);
        let ghost before = res@;
        match &store[j].1 {
            LoadEnum::Img(p) => {
                res.push((store[j].0, (p.0.clone(), p.1.clone())));
                assert(proof_view(res@) =~= proof_view(before).push((store@[j as int].0, p.0@, p.1@)));
            },
            LoadEnum::Str(_) => {},
        }
    }
    assert(store@.take(n as int) =~= store@);
    res
}

proof fn lemma_row_renames(s: Seq<LoadState>, start: nat, max: nat)
    requires
        start + load_max_len(s) <= max,
    ensures
        load_row_suffice(s, start, max),
{
    assert forall|j: int| 0 <= j < s.len() implies match #[trigger] s[j] {
        LoadState::LoadDone(img) => match img.attr {
            Content::Group(g) => names_suffice(g.inner, start, max),
            Content::Single(_) => true,
        },
        _ => true,
    } by {
        lemma_split_at(s, j);
        if let LoadState::LoadDone(img) = s[j] {
            if let Content::Group(g) = img.attr {
                assert(lml_val(s[j]) == group_max_len(g));
                lemma_max_len_suffices(g, start, max);
            }
        }
    }
}

/// In the bottom layer, a name sequence with room for `max_len_spec`
/// more names renames the main and assist panels without running out.
pub proof fn lemma_max_len_renames(m: MainStruct, start: nat, max: nat)
    requires
        m.info_stack@.len() == 0,
        start + m.max_len_spec() <= max,
    ensures
        load_names_suffice(m.data_list[0]@, m.data_list[1]@, start, max),
{
    lemma_row_renames(m.data_list[0]@, start, max);
    lemma_row_renames(m.data_list[1]@, start, max);
}

proof fn lemma_removed_done(s: Seq<LoadState>, i: int)
    requires
        0 <= i < s.len(),
    ensures
        all_done(s) ==> all_done(removed(s, i)),
{
}

/// Moving and merging loaded images leaves loaded images.
proof fn lemma_dropped_done(
    s: Seq<LoadState>,
    d: int,
    target: int,
    position: Position,
    help: &egui::TextureId,
    r: Option<(egui::Id, egui::Id)>,
    after: Seq<LoadState>,
)
    requires
        0 <= d < s.len(),
        0 <= target,
        dropped(s, d, target, position, help, r, after),
    ensures
        all_done(s) ==> all_done(after),
{
    if all_done(s) {
        let (t, p) = drop_target(s, d, target, position);
        assert(0 <= t < s.len());
        lemma_removed_done(s, d);
        let tt = if t > d { t - 1 } else { t };
        let rm = removed(s, d);
        assert forall|j: int| 0 <= j < after.len() implies #[trigger] after[j] is LoadDone by {
            if t == d {
            } else if p != Position::Middle {
                assert(after == moved(s, d, t));
                let k = crate::vec_ops::move_source(j, d, t);
                assert(0 <= k < s.len());
                assert(s[k] is LoadDone);
            } else {
                assert(after == rm.update(tt, after[tt]));
                if j != tt {
                    assert(after[j] == rm[j]);
                }
            }
        }
    }
}

/// `new` is `old` with the loaded group at `pos` opened: its three rows
/// are the panels, the layer that was shown (with the group emptied) is on
/// top of the stack with the name of the third panel, and the third panel
/// is named after the group.
pub open spec fn entered(old: MainStruct, new: MainStruct, pos: (usize, usize)) -> bool {
    let (p, i) = (pos.0 as int, pos.1 as int);
    let top = new.info_stack@.last();
    &&& old.data_list[p]@[i] matches LoadState::LoadDone(img) && img.attr matches Content::Group(g)
        && new.data_list[0]@ == boxed(g.inner.0@) && new.data_list[1]@ == boxed(g.inner.1@)
        && new.data_list[2]@ == boxed(g.inner.2@) && new.unrename_name@ == "Out "@ + img.name@
        + " Panel"@
    &&& new.info_stack@.len() == old.info_stack@.len() + 1
    &&& new.info_stack@.drop_last() == old.info_stack@
    &&& top.pos == pos
    &&& top.del_name == old.unrename_name
    &&& forall|q: int| 0 <= q < 3 && q != p ==> #[trigger] top.data[q] == old.data_list[q]
    &&& top.data[p]@.len() == old.data_list[p]@.len()
    &&& forall|j: int| 0 <= j < old.data_list[p]@.len() && j != i ==> #[trigger] top.data[p]@[j] == old.data_list[p]@[j]
    &&& top.data[p]@[i].is_emptied(&old.data_list[p]@[i])
    &&& new.proof_hash == old.proof_hash
    &&& new.merged_used == old.merged_used
}

/// The loaded images of `s`, in order.
pub open spec fn done_only(s: Seq<LoadState>) -> Seq<LoadState>
    decreases s.len(),
{
    if s.len() == 0 {
        Seq::empty()
    } else if s.last() is LoadDone {
        done_only(s.drop_last()).push(s.last())
    } else {
        done_only(s.drop_last())
    }
}

proof fn lemma_done_only_prepend(x: LoadState, t: Seq<LoadState>)
    ensures
        done_only(seq![x] + t) == if x is LoadDone {
            seq![x] + done_only(t)
        } else {
            done_only(t)
        },
    decreases t.len(),
{
    if t.len() == 0 {
        let s = seq![x] + t;
        assert(s.drop_last() =~= Seq::<LoadState>::empty());
        assert(s.last() == x);
        assert(seq![x] + t =~= seq![x]);
        assert(done_only(t) =~= Seq::<LoadState>::empty());
        assert(done_only(s.drop_last()) =~= Seq::<LoadState>::empty());
        if x is LoadDone {
            assert(done_only(s) =~= seq![x] + done_only(t));
        }
    } else {
        lemma_done_only_prepend(x, t.drop_last());
        let s = seq![x] + t;
        assert(s.drop_last() =~= seq![x] + t.drop_last());
        assert(s.last() == t.last());
        if x is LoadDone {
            assert(done_only(s) =~= seq![x] + done_only(t));
        } else {
            assert(done_only(s) =~= done_only(t));
        }
    }
}

/// `row` is `s` up to `i`, then the loaded images of the rest of `s`, each
/// at the place of the same rank.
pub open spec fn kept_from(s: Seq<LoadState>, i: int, row: Seq<LoadState>) -> bool {
    let d = done_only(s.skip(i));
    &&& row.len() == i + d.len()
    &&& forall|j: int| 0 <= j < i ==> #[trigger] row[j] == s[j]
    &&& forall|m: int| 0 <= m < d.len() ==> #[trigger] row[i + m] == d[m].with_rect(s[i + m].rect_of())
}

/// `after` is `before` with its top `n` layers closed, one after the other
/// (see `popped`).
pub open spec fn closed_layers(before: MainStruct, after: MainStruct, n: nat) -> bool
    decreases n,
{
    if n == 0 {
        after == before
    } else {
        exists|mid: MainStruct| closed_layers(before, mid, (n - 1) as nat) && #[trigger] popped(mid, after)
    }
}

impl MainStruct {
    /// The state stays sound: no texture is kept twice, each layer that was
    /// left is left through an emptied group, and the layers inside groups
    /// hold loaded images only.
    pub open spec fn wf(&self) -> bool {
        &&& keys_distinct(self.proof_hash@)
        &&& forall|k: int| 0 <= k < self.info_stack@.len() ==> entry_ok(#[trigger] self.info_stack@[k])
        &&& forall|k: int|
            1 <= k < self.info_stack@.len() ==> layer_done(#[trigger] self.info_stack@[k].data)
        &&& self.info_stack@.len() > 0 ==> layer_done(self.data_list)
    }

    /// Empty panels, nothing kept, the default texture for groups.
    pub fn new_with_empty() -> (r: Self)
        ensures
            r.wf(),
            r.data_list[0]@.len() == 0,
            r.data_list[1]@.len() == 0,
            r.data_list[2]@.len() == 0,
            r.info_stack@.len() == 0,
            r.proof_hash@.len() == 0,
            r.unrename_name@.len() == 0,
    {
        MainStruct {
            data_list: [Vec::new(), Vec::new(), Vec::new()],
            info_stack: Vec::new(),
            proof_hash: Vec::new(),
            merged_used: default_texture_id(),
            unrename_name: String::new(),
        }
    }

    /// The main view at start: groups are shown with the directory icon,
    /// which is kept, and the third panel is named "Unrename Panel".
    pub fn new_with_asset(dir_icon_id: egui::TextureId) -> (r: Self)
        ensures
            r.wf(),
            r.data_list[0]@.len() == 0,
            r.data_list[1]@.len() == 0,
            r.data_list[2]@.len() == 0,
            r.info_stack@.len() == 0,
            r.proof_hash@.len() == 1,
            r.proof_hash@[0].0 == dir_icon_id,
            r.proof_hash@[0].1 matches LoadEnum::Img(p) && p.0@.len() == 0 && p.1@.len() == 0,
            r.merged_used == dir_icon_id,
            r.unrename_name@ == "Unrename Panel"@,
    {
        let mut res = MainStruct::new_with_empty();
        res.proof_hash.push((dir_icon_id, LoadEnum::Img((String::new(), String::new()))));
        res.merged_used = dir_icon_id;
        res.unrename_name = String::from_str("Unrename Panel");
        res
    }

    /// Forgets every item and layer; only the directory icon stays kept.
    pub fn all_clear(&mut self)
        requires
            has_key(old(self).proof_hash@, old(self).merged_used),
            keys_distinct(old(self).proof_hash@),
        ensures
            final(self).wf(),
            final(self).data_list[0]@.len() == 0,
            final(self).data_list[1]@.len() == 0,
            final(self).data_list[2]@.len() == 0,
            final(self).info_stack@.len() == 0,
            final(self).proof_hash@.len() == 1,
            final(self).proof_hash@[0].0 == old(self).merged_used,
            old(self).proof_hash@.contains(final(self).proof_hash@[0]),
            final(self).merged_used == old(self).merged_used,
            final(self).unrename_name == old(self).unrename_name,
    {
        let dir_id = self.merged_used;
        let n = self.proof_hash.len();
        let mut i: usize = 0;
        while i < n && !texture_id_eq(&self.proof_hash[i].0, &dir_id)
            invariant
                n == self.proof_hash@.len(),
                i <= n,
                dir_id == self.merged_used,
                has_key(self.proof_hash@, dir_id),
                self.proof_hash@ == old(self).proof_hash@,
                forall|k: int| 0 <= k < i ==> #[trigger] self.proof_hash@[k].0 != dir_id,
            decreases n - i,
        {
            i = i + 1;
        }
        let mut entry = (dir_id, LoadEnum::Str(()));
        std::mem::swap(&mut entry, &mut self.proof_hash[i]);
        let mut kept: Vec<ProofEntry> = Vec::new();
        kept.push(entry);
        self.proof_hash = kept;
        self.info_stack = Vec::new();
        self.data_list = [Vec::new(), Vec::new(), Vec::new()];
    }

    /// Fills the main panel with the loading items of the files.
    pub fn load_figure(&mut self, vec_fig_name: Vec<(String, String)>)
        ensures
            final(self).data_list[0]@.len() == vec_fig_name@.len(),
            forall|j: int|
                0 <= j < vec_fig_name@.len() ==> (#[trigger] final(self).data_list[0]@[j] matches LoadState::Loading(
                    t,
                ) && t.string == vec_fig_name@[j].0 && t.id == text_id(t.string@) && !t.editable),
            final(self).data_list[1] == old(self).data_list[1],
            final(self).data_list[2] == old(self).data_list[2],
            final(self).info_stack == old(self).info_stack,
            final(self).proof_hash == old(self).proof_hash,
            final(self).merged_used == old(self).merged_used,
            final(self).unrename_name == old(self).unrename_name,
    {
        let mut names = vec_fig_name;
        let ghost orig = names@;
        let n = names.len();
        let mut loading_vec: Vec<LoadState> = Vec::new();
        let mut k: usize = 0;
        while k < n
            invariant
                n == orig.len(),
                k <= n,
                names@ == orig.subrange(k as int, n as int),
                loading_vec@.len() == k,
                forall|j: int|
                    0 <= j < k ==> (#[trigger] loading_vec@[j] matches LoadState::Loading(t) && t.string
                        == orig[j].0 && t.id == text_id(t.string@) && !t.editable),
            decreases n - k,
        {
            let (file_name, _ext) = names.remove(0);
            loading_vec.push(LoadState::new_with_string(file_name));
            k = k + 1;
        }
        let mut old_row = loading_vec;
        std::mem::swap(&mut old_row, &mut self.data_list[0]);
    }

    /// The item of the first layer named `name` that is still loading gets
    /// its image; the result says whether there was such an item. The file
    /// name and extension are kept by the thumbnail, unless something is
    /// kept by it already.
    pub fn find_loading_and_load_image(
        &mut self,
        name: String,
        thumbnailer_texture_id: egui::TextureId,
        full_texture_id: egui::TextureId,
        dimension: [usize; 2],
    ) -> (r: bool)
        requires
            old(self).wf(),
            (exists|j: int| first_loading(first_layer(*old(self)), name@, j)) ==> rfind(name@, '.')
                is Some,
        ensures
            final(self).wf(),
            r <==> exists|j: int| first_loading(first_layer(*old(self)), name@, j),
            forall|j: int|
                first_loading(first_layer(*old(self)), name@, j) ==> first_layer(*final(self))
                    == first_layer(*old(self)).update(
                    j,
                    loaded(first_layer(*old(self))[j], thumbnailer_texture_id, full_texture_id, dimension),
                ),
            !r ==> first_layer(*final(self)) == first_layer(*old(self)) && final(self).proof_hash
                == old(self).proof_hash,
            r ==> kept_after_load(old(self).proof_hash@, final(self).proof_hash@, thumbnailer_texture_id, name@),
            final(self).info_stack@.len() == old(self).info_stack@.len(),
            old(self).info_stack@.len() > 0 ==> final(self).data_list == old(self).data_list
                && final(self).info_stack@[0].data[1] == old(self).info_stack@[0].data[1]
                && final(self).info_stack@[0].data[2] == old(self).info_stack@[0].data[2]
                && final(self).info_stack@[0].del_name == old(self).info_stack@[0].del_name
                && final(self).info_stack@.skip(1) == old(self).info_stack@.skip(1),
            old(self).info_stack@.len() == 0 ==> final(self).data_list[1] == old(self).data_list[1]
                && final(self).data_list[2] == old(self).data_list[2],
            forall|k: int| 0 <= k < old(self).info_stack@.len() ==> #[trigger] final(self).info_stack@[k].pos == old(self).info_stack@[k].pos,
            old(self).info_stack@.len() > 0 ==> (r <==> exists|j: int|
                first_loading(old(self).info_stack@[0].data[0]@, name@, j)),
            old(self).info_stack@.len() == 0 ==> (r <==> exists|j: int|
                first_loading(old(self).data_list[0]@, name@, j)),
            forall|j: int|
                old(self).info_stack@.len() > 0 && first_loading(old(self).info_stack@[0].data[0]@, name@, j)
                    ==> final(self).info_stack@[0].data[0]@[j] is LoadDone
                    && final(self).info_stack@[0].data[0]@[j] == loaded(old(self).info_stack@[0].data[0]@[j], thumbnailer_texture_id, full_texture_id, dimension),
            forall|j: int|
                old(self).info_stack@.len() == 0 && first_loading(old(self).data_list[0]@, name@, j)
                    ==> final(self).data_list[0]@[j] is LoadDone
                    && final(self).data_list[0]@[j] == loaded(old(self).data_list[0]@[j], thumbnailer_texture_id, full_texture_id, dimension),
            final(self).merged_used == old(self).merged_used,
            final(self).unrename_name == old(self).unrename_name,
    {
        let mut row: Vec<LoadState> = Vec::new();
        let on_stack = self.info_stack.len() > 0;
        if on_stack {
            std::mem::swap(&mut row, &mut self.info_stack[0].data[0]);
        } else {
            std::mem::swap(&mut row, &mut self.data_list[0]);
        }
        let got = load_in_row(&mut row, name.as_str(), thumbnailer_texture_id, full_texture_id, dimension);
        if on_stack {
            std::mem::swap(&mut row, &mut self.info_stack[0].data[0]);
        } else {
            std::mem::swap(&mut row, &mut self.data_list[0]);
        }
        match got {
            Some((file_name, ext)) => {
                let ghost before = self.proof_hash@;
                insert_if_absent(&mut self.proof_hash, thumbnailer_texture_id, LoadEnum::Img((file_name, ext)));
                proof {
                    if !has_key(before, thumbnailer_texture_id) {
                        assert(self.proof_hash@.take(before.len() as int) =~= before);
                    }
                }
                true
            },
            None => false,
        }
    }

    /// The item of the first layer named `name` that is still loading
    /// becomes a failed one; the result says whether there was such an item.
    pub fn find_loading_and_err(&mut self, name: String) -> (r: bool)
        requires
            old(self).wf(),
        ensures
            final(self).wf(),
            r <==> exists|j: int| first_loading(first_layer(*old(self)), name@, j),
            forall|j: int|
                first_loading(first_layer(*old(self)), name@, j) ==> first_layer(*final(self))
                    == first_layer(*old(self)).update(j, failed(first_layer(*old(self))[j])),
            !r ==> first_layer(*final(self)) == first_layer(*old(self)),
            final(self).proof_hash == old(self).proof_hash,
            final(self).info_stack@.len() == old(self).info_stack@.len(),
            old(self).info_stack@.len() > 0 ==> final(self).data_list == old(self).data_list
                && final(self).info_stack@[0].data[1] == old(self).info_stack@[0].data[1]
                && final(self).info_stack@[0].data[2] == old(self).info_stack@[0].data[2]
                && final(self).info_stack@[0].del_name == old(self).info_stack@[0].del_name
                && final(self).info_stack@.skip(1) == old(self).info_stack@.skip(1),
            old(self).info_stack@.len() == 0 ==> final(self).data_list[1] == old(self).data_list[1]
                && final(self).data_list[2] == old(self).data_list[2],
            forall|k: int| 0 <= k < old(self).info_stack@.len() ==> #[trigger] final(self).info_stack@[k].pos == old(self).info_stack@[k].pos,
            old(self).info_stack@.len() > 0 ==> (r <==> exists|j: int|
                first_loading(old(self).info_stack@[0].data[0]@, name@, j)),
            old(self).info_stack@.len() == 0 ==> (r <==> exists|j: int|
                first_loading(old(self).data_list[0]@, name@, j)),
            forall|j: int|
                old(self).info_stack@.len() > 0 && first_loading(old(self).info_stack@[0].data[0]@, name@, j)
                    ==> final(self).info_stack@[0].data[0]@[j] is LoadErr,
            forall|j: int|
                old(self).info_stack@.len() == 0 && first_loading(old(self).data_list[0]@, name@, j)
                    ==> final(self).data_list[0]@[j] is LoadErr,
            final(self).merged_used == old(self).merged_used,
            final(self).unrename_name == old(self).unrename_name,
    {
        let mut row: Vec<LoadState> = Vec::new();
        let on_stack = self.info_stack.len() > 0;
        if on_stack {
            std::mem::swap(&mut row, &mut self.info_stack[0].data[0]);
        } else {
            std::mem::swap(&mut row, &mut self.data_list[0]);
        }
        let got = err_in_row(&mut row, name.as_str());
        if on_stack {
            std::mem::swap(&mut row, &mut self.info_stack[0].data[0]);
        } else {
            std::mem::swap(&mut row, &mut self.data_list[0]);
        }
        got
    }

    /// The largest number of names a save can need: the loaded images of
    /// the main and assist panels of each layer once the layers above are
    /// closed (the loaded images of a third panel go back to the assist
    /// panel below), and the size of every loaded group and of the groups
    /// within it. The third panel of the bottom layer is not saved.
    pub open spec fn max_len_spec(&self) -> nat {
        let d = self.data_list;
        let top = max_nat(
            count_done(d[0]@) + count_done(d[1]@),
            max_nat(load_max_len(d[0]@), load_max_len(d[1]@)),
        );
        let top2 = if self.info_stack@.len() != 0 {
            max_nat(top, load_max_len(d[2]@))
        } else {
            top
        };
        max_nat(top2, stack_max_len(self.info_stack@, self.info_stack@.len() as int, count_done(d[2]@)))
    }

    /// The largest number of names a save can need (see `max_len_spec`).
    pub fn max_len(&self) -> (r: usize)
        requires
            self.max_len_spec() <= usize::MAX,
        ensures
            r == self.max_len_spec(),
    {
        let c0 = count_loaded(&self.data_list[0]);
        let c1 = count_loaded(&self.data_list[1]);
        let mut len = c0 + c1;
        let m0 = row_load_max_len(&self.data_list[0]);
        let m1 = row_load_max_len(&self.data_list[1]);
        if m0 > len {
            len = m0;
        }
        if m1 > len {
            len = m1;
        }
        let stack_len = self.info_stack.len();
        if stack_len != 0 {
            let m2 = row_load_max_len(&self.data_list[2]);
            if m2 > len {
                len = m2;
            }
        }
        let mut del_len = count_loaded(&self.data_list[2]);
        let mut idx = stack_len;
        while idx > 0
            invariant
                idx <= stack_len,
                stack_len == self.info_stack@.len(),
                self.max_len_spec() <= usize::MAX,
                self.max_len_spec() == max_nat(len as nat, stack_max_len(self.info_stack@, idx as int, del_len as nat)),
            decreases idx,
        {
            let stack_data = &self.info_stack[idx - 1].data;
            let c0 = count_loaded(&stack_data[0]);
            let c1 = count_loaded(&stack_data[1]);
            let here = del_len + c0 + c1;
            if here > len {
                len = here;
            }
            let m0 = row_load_max_len(&stack_data[0]);
            let m1 = row_load_max_len(&stack_data[1]);
            if m0 > len {
                len = m0;
            }
            if m1 > len {
                len = m1;
            }
            if idx - 1 != 0 {
                let m2 = row_load_max_len(&stack_data[2]);
                if m2 > len {
                    len = m2;
                }
            }
            del_len = count_loaded(&stack_data[2]);
            idx = idx - 1;
        }
        len
    }

    /// Swaps in another set of panels; returns the ones that were shown.
    fn replace_data(&mut self, data: [Vec<LoadState>; 3]) -> (r: [Vec<LoadState>; 3])
        ensures
            r == old(self).data_list,
            final(self).data_list == data,
            final(self).info_stack == old(self).info_stack,
            final(self).proof_hash == old(self).proof_hash,
            final(self).merged_used == old(self).merged_used,
            final(self).unrename_name == old(self).unrename_name,
    {
        let mut data = data;
        std::mem::swap(&mut data, &mut self.data_list);
        data
    }

    /// Closes the top layer (see `popped`). The result is where the group
    /// was, and the identifier of the group if it was empty and taken out;
    /// with no layer to close, nothing changes.
    pub fn pop_top_layer(&mut self) -> (r: (Option<(usize, usize)>, Option<egui::Id>))
        requires
            old(self).wf(),
        ensures
            final(self).wf(),
            old(self).info_stack@.len() == 0 ==> r == (None::<(usize, usize)>, None::<egui::Id>) && *final(self) == *old(self),
            old(self).info_stack@.len() > 0 ==> popped(*old(self), *final(self)) && r.0 == Some(old(self).info_stack@.last().pos),
            old(self).info_stack@.len() > 0 ==> (r.1 is Some <==> only_images(old(self).data_list[0]@).len() + only_images(old(self).data_list[1]@).len() == 0),
            old(self).info_stack@.len() > 0 ==> (r.1 matches Some(id) ==> old(self).info_stack@.last().data[old(self).info_stack@.last().pos.0 as int]@[old(self).info_stack@.last().pos.1 as int].id_of() == id),
    {
        if self.info_stack.len() == 0 {
            return (None, None);
        }
        let ghost o = *self;
        let top = self.info_stack.pop().unwrap();
        let OuterStack { data, pos, del_name } = top;
        let (pidx, iidx) = pos;
        let bot_layer = self.replace_data(data);
        let ghost e = o.info_stack@.last();
        let ghost row_p = self.data_list[pidx as int]@;
        assert(row_p == e.data[pidx as int]@);
        let content = self.data_list[pidx][iidx].get_content();
        let mut removed_id = None;
        match content {
            Content::Group(mut grp) => {
                let ghost g = grp;
                let mut out = <GroupAttr as SplitMergeItem<LoadState>>::embed(&mut grp, bot_layer);
                <GroupAttr as SplitMergeItem<LoadState>>::back_top(grp, &mut self.data_list[pidx][iidx]);
                let ghost mid = self.data_list[pidx as int]@;
                proof {
                    assert(mid.len() == row_p.len());
                    assert(forall|j: int| 0 <= j < row_p.len() && j != iidx ==> #[trigger] mid[j] == row_p[j]);
                    assert(is_empty_group(g));
                    assert(mid[iidx as int].rect_of() == row_p[iidx as int].rect_of());
                }
                if !<GroupAttr as SplitMergeItem<LoadState>>::is_valid(&self.data_list[pidx][iidx]) {
                    let item = vec_remove_item(&mut self.data_list[pidx], iidx);
                    removed_id = Some(item.id());
                    proof {
                        assert(removed(mid, iidx as int) =~= removed(row_p, iidx as int));
                    }
                }
                let ghost before_out = self.data_list[1]@;
                self.data_list[1].append(&mut out);
                proof {
                    let valid = only_images(o.data_list[0]@).len() + only_images(o.data_list[1]@).len() > 0;
                    let lenp = row_p.len() - if valid { 0int } else { 1int };
                    assert(self.data_list[pidx as int]@.take(lenp) =~= if pidx == 1 { before_out } else { self.data_list[pidx as int]@ });
                    if pidx == 1 {
                        assert(self.data_list[1]@.take(lenp) =~= before_out);
                    }
                }
            },
            Content::Single(_) => {},
        }
        self.unrename_name = del_name;
        proof {
            let e = o.info_stack@.last();
            let (p, i) = (e.pos.0 as int, e.pos.1 as int);
            let d = o.data_list;
            let valid = only_images(d[0]@).len() + only_images(d[1]@).len() > 0;
            let lenp = e.data[p]@.len() - if valid { 0int } else { 1int };
            assert(self.info_stack@ == o.info_stack@.drop_last());
            assert(self.unrename_name == e.del_name);
            assert(closed_row(e.data[p]@, i, self.data_list[p]@.take(lenp), d[0]@, d[1]@));
            assert(popped(o, *self));
        }
        (Some(pos), removed_id)
    }

    /// Opens the loaded group at `pos`: its three rows become the panels,
    /// the layer that is left (with the group emptied) goes on the stack
    /// with the name of the third panel, and the third panel is named after
    /// the group.
    pub fn inner_with_pos(&mut self, pos: (usize, usize))
        requires
            old(self).wf(),
            pos.0 < 3,
            pos.1 < old(self).data_list[pos.0 as int]@.len(),
            old(self).data_list[pos.0 as int]@[pos.1 as int] matches LoadState::LoadDone(img)
                && img.attr is Group,
        ensures
            final(self).wf(),
            entered(*old(self), *final(self), pos),
    {
        let (pidx, iidx) = pos;
        let content = self.data_list[pidx][iidx].get_content();
        match content {
            Content::Group(mut grp) => {
                let rows = <GroupAttr as SplitMergeItem<LoadState>>::split(&mut grp);
                let now_layer = self.replace_data(rows);
                let mut new_name = String::from_str("Out ");
                new_name.append(now_layer[pidx][iidx].name());
                new_name.append(" Panel");
                let mut origin_name = new_name;
                std::mem::swap(&mut origin_name, &mut self.unrename_name);
                self.info_stack.push(OuterStack { data: now_layer, pos, del_name: origin_name });
                proof {
                    let top = self.info_stack@.last();
                    let (p, i) = (pos.0 as int, pos.1 as int);
                    assert(forall|q: int| 0 <= q < 3 && q != p ==> #[trigger] top.data[q] == old(self).data_list[q]);
                    assert(top.data[p]@.len() == old(self).data_list[p]@.len());
                    assert(forall|j: int| 0 <= j < old(self).data_list[p]@.len() && j != i ==> #[trigger] top.data[p]@[j] == old(self).data_list[p]@[j]);
                    assert(top.data[p]@[i].is_emptied(&old(self).data_list[p]@[i]));
                    assert(self.info_stack@.drop_last() == old(self).info_stack@);
                }
            },
            Content::Single(_) => {},
        }
    }

    /// Renames the loaded images of the main and assist panels of the
    /// bottom layer, and the groups in them (see `rename_load_inner`).
    pub fn rename(&mut self, idx_name: IndexName) -> (r: Result<(), String>)
        requires
            old(self).info_stack@.len() == 0,
            idx_name.wf(),
            load_names_suffice(old(self).data_list[0]@, old(self).data_list[1]@, idx_name.now_num as nat, idx_name.max_size as nat),
        ensures
            r is Ok,
            load_row_renamed(old(self).data_list[0]@, final(self).data_list[0]@, idx_name.style, idx_name.now_num as nat, idx_name.now_num as nat),
            load_row_renamed(old(self).data_list[1]@, final(self).data_list[1]@, idx_name.style, idx_name.now_num as nat, idx_name.now_num as nat + count_done(old(self).data_list[0]@)),
            final(self).data_list[2] == old(self).data_list[2],
            final(self).info_stack == old(self).info_stack,
            final(self).proof_hash == old(self).proof_hash,
            final(self).merged_used == old(self).merged_used,
            final(self).unrename_name == old(self).unrename_name,
    {
        rename_load_inner(idx_name, &mut self.data_list);
        Ok(())
    }

    /// Closes every layer, from the top down, back to the bottom one; the
    /// result holds where each closed group was, the last closed first.
    pub fn back_first_layer(&mut self) -> (r: Vec<(usize, usize)>)
        requires
            old(self).wf(),
        ensures
            final(self).wf(),
            final(self).info_stack@.len() == 0,
            r@.len() == old(self).info_stack@.len(),
            forall|k: int| 0 <= k < r@.len() ==> #[trigger] r@[k] == old(self).info_stack@[old(self).info_stack@.len() - 1 - k].pos,
            closed_layers(*old(self), *final(self), old(self).info_stack@.len()),
            final(self).max_len_spec() <= old(self).max_len_spec(),
            final(self).proof_hash == old(self).proof_hash,
            final(self).merged_used == old(self).merged_used,
            old(self).info_stack@.len() > 0 ==> final(self).unrename_name == old(self).info_stack@[0].del_name,
            old(self).info_stack@.len() == 0 ==> final(self).unrename_name == old(self).unrename_name
                && final(self).data_list == old(self).data_list,
    {
        let ghost n = self.info_stack@.len();
        let mut res: Vec<(usize, usize)> = Vec::new();
        while self.info_stack.len() > 0
            invariant
                self.wf(),
                res@.len() + self.info_stack@.len() == n,
                n == old(self).info_stack@.len(),
                self.info_stack@ == old(self).info_stack@.take(self.info_stack@.len() as int),
                forall|k: int| 0 <= k < res@.len() ==> #[trigger] res@[k] == old(self).info_stack@[n - 1 - k].pos,
                closed_layers(*old(self), *self, res@.len() as nat),
                self.max_len_spec() <= old(self).max_len_spec(),
                self.proof_hash == old(self).proof_hash,
                self.merged_used == old(self).merged_used,
                res@.len() > 0 ==> self.unrename_name == old(self).info_stack@[n - res@.len()].del_name,
                res@.len() == 0 ==> self.unrename_name == old(self).unrename_name && self.data_list == old(self).data_list,
            decreases self.info_stack@.len(),
        {
            let ghost before = *self;
            let (pos, _) = self.pop_top_layer();
            proof {
                lemma_pop_max_len(before, *self);
                assert(self.info_stack@ =~= old(self).info_stack@.take(self.info_stack@.len() as int));
            }
            let ghost k = res@.len();
            if let Some(p) = pos {
                res.push(p);
            }
            proof {
                assert(res@.len() == k + 1);
                assert(((k + 1) - 1) as nat == k as nat);
                let n = (k + 1) as nat;
                assert(closed_layers(*old(self), before, (n - 1) as nat) && popped(before, *self));
                assert(closed_layers(*old(self), *self, n));
            }
        }
        res
    }

    /// Prepares a save of the images into the directory `idx_str` under
    /// `path`: closes every layer, renames the main and assist panels with
    /// `idx_name`, and lists the copies (from the old path to the new one)
    /// that save their loaded images, in order, with the message of the
    /// first image whose file cannot be found, where the list stops.
    pub fn save_plan(&mut self, path: &str, idx_str: &str, idx_name: IndexName) -> (r: (
        Vec<(String, String)>,
        Option<String>,
    ))
        requires
            old(self).wf(),
            idx_name.wf(),
            idx_name.now_num + old(self).max_len_spec() <= idx_name.max_size,
        ensures
            final(self).wf(),
            final(self).info_stack@.len() == 0,
            final(self).proof_hash == old(self).proof_hash,
            final(self).merged_used == old(self).merged_used,
            exists|mid: MainStruct|
                {
                    &&& closed_layers(*old(self), mid, old(self).info_stack@.len())
                    &&& mid.info_stack@.len() == 0
                    &&& mid.max_len_spec() <= old(self).max_len_spec()
                    &&& load_row_renamed(#[trigger] mid.data_list[0]@, final(self).data_list[0]@, idx_name.style, idx_name.now_num as nat, idx_name.now_num as nat)
                    &&& load_row_renamed(mid.data_list[1]@, final(self).data_list[1]@, idx_name.style, idx_name.now_num as nat, idx_name.now_num as nat + count_done(mid.data_list[0]@))
                    &&& final(self).data_list[2] == mid.data_list[2]
                },
            ({
                let old_dir = path@ + "/"@;
                let new_dir = path@ + "/"@ + idx_str@ + "/"@;
                let plan = save_copies(final(self).data_list[0]@, final(self).data_list[1]@, image_entries(final(self).proof_hash@), new_dir, old_dir);
                &&& pairs_view(r.0@) == plan.0
                &&& r.1 is Some <==> plan.1 is Some
                &&& (r.1 matches Some(msg) ==> plan.1 == Some(msg@))
            }),
    {
        let mut old_dir = String::from_str(path);
        old_dir.append("/");
        let mut new_dir = String::from_str(path);
        new_dir.append("/");
        new_dir.append(idx_str);
        new_dir.append("/");
        self.back_first_layer();
        let ghost mid = *self;
        proof {
            lemma_max_len_renames(*self, idx_name.now_num as nat, idx_name.max_size as nat);
        }
        let _ = self.rename(idx_name);
        let hash_map = image_proofs(&self.proof_hash);
        let mut copies: Vec<(String, String)> = Vec::new();
        let mut failure = None;
        let r0 = copy_load_row(&self.data_list[0], &hash_map, new_dir.as_str(), old_dir.as_str(), &mut copies);
        match r0 {
            Err(msg) => {
                failure = Some(msg);
            },
            Ok(()) => {
                let r1 = copy_load_row(&self.data_list[1], &hash_map, new_dir.as_str(), old_dir.as_str(), &mut copies);
                if let Err(msg) = r1 {
                    failure = Some(msg);
                }
            },
        }
        proof {
            assert(pairs_view(Seq::<(String, String)>::empty()) =~= Seq::<(Seq<char>, Seq<char>)>::empty());
            assert(old_dir@ == path@ + "/"@);
            assert(new_dir@ == path@ + "/"@ + idx_str@ + "/"@);
            assert(mid.data_list[0]@ == mid.data_list[0]@);
        }
        (copies, failure)
    }

    /// A drag of the item at `item_idx` of panel `from` that ends at
    /// `target_idx` of panel `to`, in relation `position`: within a panel
    /// the item is moved or merged there (see `dropped`); into another panel
    /// it leaves its panel, comes at the end of the other one in the place
    /// `end_rect`, and is moved or merged from there. The result names the
    /// two items that a merge made disappear.
    pub fn drop_item(
        &mut self,
        from: usize,
        item_idx: usize,
        to: usize,
        target_idx: usize,
        position: Position,
        end_rect: egui::Rect,
    ) -> (r: Option<(egui::Id, egui::Id)>)
        requires
            old(self).wf(),
            from < 3,
            to < 3,
            item_idx < old(self).data_list[from as int]@.len(),
        ensures
            final(self).wf(),
            final(self).info_stack == old(self).info_stack,
            final(self).proof_hash == old(self).proof_hash,
            final(self).merged_used == old(self).merged_used,
            final(self).unrename_name == old(self).unrename_name,
            forall|q: int| 0 <= q < 3 && q != from && q != to ==> #[trigger] final(self).data_list[q] == old(self).data_list[q],
            from == to ==> dropped(old(self).data_list[from as int]@, item_idx as int, target_idx as int, position, &old(self).merged_used, r, final(self).data_list[from as int]@),
            from != to ==> final(self).data_list[from as int]@ == removed(old(self).data_list[from as int]@, item_idx as int)
                && dropped(
                    old(self).data_list[to as int]@.push(old(self).data_list[from as int]@[item_idx as int].with_rect(end_rect)),
                    old(self).data_list[to as int]@.len() as int,
                    target_idx as int,
                    position,
                    &old(self).merged_used,
                    r,
                    final(self).data_list[to as int]@,
                ),
    {
        let help = self.merged_used;
        if from == to {
            let r = vec_process_with_id_output(&mut self.data_list[from], item_idx, target_idx, position, &help);
            proof {
                lemma_dropped_done(old(self).data_list[from as int]@, item_idx as int, target_idx as int, position, &help, r, self.data_list[from as int]@);
            }
            r
        } else {
            let mut extra_item = vec_remove_item(&mut self.data_list[from], item_idx);
            proof {
                lemma_removed_done(old(self).data_list[from as int]@, item_idx as int);
            }
            extra_item.update_item_rect(end_rect);
            self.data_list[to].push(extra_item);
            let drag_idx = self.data_list[to].len() - 1;
            let ghost pushed = self.data_list[to as int]@;
            let r = vec_process_with_id_output(&mut self.data_list[to], drag_idx, target_idx, position, &help);
            proof {
                lemma_dropped_done(pushed, drag_idx as int, target_idx as int, position, &help, r, self.data_list[to as int]@);
            }
            r
        }
    }

    /// Carries out what a panel asked for: a double click opens the group
    /// clicked, a click names the item to show (the first result), and
    /// `Back` closes the top layer (the second result names an empty group
    /// that closing took out).
    pub fn event_process(&mut self, event: Event) -> (r: (Option<(usize, usize)>, Option<egui::Id>))
        requires
            old(self).wf(),
            event matches Event::Dclicked(pos) ==> (pos.0 < 3 && pos.1 < old(self).data_list[pos.0 as int]@.len()
                && (old(self).data_list[pos.0 as int]@[pos.1 as int] matches LoadState::LoadDone(img) && img.attr is Group)),
        ensures
            final(self).wf(),
            event matches Event::Sclicked(pos) ==> r == (Some(pos), None::<egui::Id>) && *final(self) == *old(self),
            event matches Event::Dclicked(pos) ==> r == (None::<(usize, usize)>, None::<egui::Id>) && entered(*old(self), *final(self), pos),
            event is Empty ==> r == (None::<(usize, usize)>, None::<egui::Id>) && *final(self) == *old(self),
            event is Back && old(self).info_stack@.len() == 0 ==> r == (None::<(usize, usize)>, None::<egui::Id>) && *final(self) == *old(self),
            event is Back && old(self).info_stack@.len() > 0 ==> r.0 is None && popped(*old(self), *final(self))
                && (r.1 is Some <==> only_images(old(self).data_list[0]@).len() + only_images(old(self).data_list[1]@).len() == 0),
    {
        match event {
            Event::Sclicked(pos) => (Some(pos), None),
            Event::Dclicked(pos) => {
                self.inner_with_pos(pos);
                (None, None)
            },
            Event::Back => {
                let (_, removed_id) = self.pop_top_layer();
                (None, removed_id)
            },
            Event::Empty => (None, None),
        }
    }

    /// Takes the texts (images still loading or that failed) out of the
    /// main panel of the bottom layer; the loaded images stay, in order,
    /// each at the place of its new rank.
    pub fn not_done_clear(&mut self)
        requires
            old(self).info_stack@.len() == 0,
        ensures
            final(self).data_list[0]@.len() == done_only(old(self).data_list[0]@).len(),
            forall|j: int|
                0 <= j < final(self).data_list[0]@.len() ==> #[trigger] final(self).data_list[0]@[j]
                    == done_only(old(self).data_list[0]@)[j].with_rect(old(self).data_list[0]@[j].rect_of()),
            final(self).data_list[1] == old(self).data_list[1],
            final(self).data_list[2] == old(self).data_list[2],
            final(self).info_stack == old(self).info_stack,
            final(self).proof_hash == old(self).proof_hash,
            final(self).merged_used == old(self).merged_used,
            final(self).unrename_name == old(self).unrename_name,
    {
        let ghost s = self.data_list[0]@;
        let len = self.data_list[0].len();
        let mut idx = len;
        assert(s.skip(len as int) =~= Seq::<LoadState>::empty());
        assert(kept_from(s, len as int, self.data_list[0]@));
        while idx > 0
            invariant
                idx <= len,
                len == s.len(),
                s == old(self).data_list[0]@,
                kept_from(s, idx as int, self.data_list[0]@),
                self.data_list[1] == old(self).data_list[1],
                self.data_list[2] == old(self).data_list[2],
                self.info_stack == old(self).info_stack,
                self.proof_hash == old(self).proof_hash,
                self.merged_used == old(self).merged_used,
                self.unrename_name == old(self).unrename_name,
            decreases idx,
        {
            let i = idx - 1;
            let ghost row = self.data_list[0]@;
            let ghost x = s[i as int];
            let ghost d = done_only(s.skip(idx as int));
            proof {
                assert(s.skip(i as int) =~= seq![x] + s.skip(idx as int));
                lemma_done_only_prepend(x, s.skip(idx as int));
                assert(row[i as int] == x);
            }
            if !self.data_list[0][i].is_loaddone() {
                vec_remove_item(&mut self.data_list[0], i);
                proof {
                    let nr = self.data_list[0]@;
                    assert forall|m: int| 0 <= m < d.len() implies #[trigger] nr[i + m] == d[m].with_rect(s[i + m].rect_of()) by {
                        if m == 0 {
                            LoadState::lemma_with_rect(d[0], s[idx as int].rect_of(), s[i as int].rect_of());
                        } else {
                            LoadState::lemma_with_rect(d[m], s[idx + m].rect_of(), s[i + m].rect_of());
                            assert(row[i + m] == row[idx + (m - 1)]);
                        }
                    }
                }
            } else {
                proof {
                    let dd = done_only(s.skip(i as int));
                    assert forall|m: int| 0 <= m < dd.len() implies #[trigger] row[i + m] == dd[m].with_rect(s[i + m].rect_of()) by {
                        if m == 0 {
                            LoadState::lemma_with_rect(x, x.rect_of(), x.rect_of());
                        } else {
                            assert(row[i + m] == row[idx + (m - 1)]);
                        }
                    }
                }
            }
            idx = i;
        }
        assert(s.skip(0) =~= s);
        let ghost row = self.data_list[0]@;
        assert forall|j: int| 0 <= j < row.len() implies #[trigger] row[j] == done_only(s)[j].with_rect(s[j].rect_of()) by {
            assert(row[0 + j] == done_only(s.skip(0))[j].with_rect(s[0 + j].rect_of()));
        }
    }
}


/// What a loaded image adds to the count of a panel.
pub open spec fn done_val(x: LoadState) -> nat {
    if x is LoadDone {
        1
    } else {
        0
    }
}

/// The largest group size within an item of a panel.
pub open spec fn lml_val(x: LoadState) -> nat {
    match x {
        LoadState::LoadDone(img) => item_max_len(img),
        _ => 0,
    }
}

proof fn lemma_concat(a: Seq<LoadState>, b: Seq<LoadState>)
    ensures
        count_done(a + b) == count_done(a) + count_done(b),
        load_max_len(a + b) == max_nat(load_max_len(a), load_max_len(b)),
    decreases b.len(),
{
    if b.len() == 0 {
        assert(a + b =~= a);
    } else {
        assert((a + b).drop_last() =~= a + b.drop_last());
        assert((a + b).last() == b.last());
        lemma_concat(a, b.drop_last());
    }
}

proof fn lemma_single(x: LoadState)
    ensures
        count_done(seq![x]) == done_val(x),
        load_max_len(seq![x]) == lml_val(x),
{
    let s = seq![x];
    assert(s.drop_last() =~= Seq::<LoadState>::empty());
    assert(s.last() == x);
    assert(count_done(s.drop_last()) == 0);
    assert(load_max_len(s.drop_last()) == 0);
}

/// Panels whose items agree on being loaded and on their group sizes agree
/// on their counts and largest group sizes.
proof fn lemma_proj(a: Seq<LoadState>, b: Seq<LoadState>)
    requires
        a.len() == b.len(),
        forall|j: int| 0 <= j < a.len() ==> done_val(#[trigger] a[j]) == done_val(b[j]) && lml_val(a[j]) == lml_val(b[j]),
    ensures
        count_done(a) == count_done(b),
        load_max_len(a) == load_max_len(b),
    decreases a.len(),
{
    if a.len() > 0 {
        lemma_proj(a.drop_last(), b.drop_last());
    }
}

proof fn lemma_split_at(s: Seq<LoadState>, i: int)
    requires
        0 <= i < s.len(),
    ensures
        count_done(s) == count_done(s.take(i)) + done_val(s[i]) + count_done(s.skip(i + 1)),
        load_max_len(s) == max_nat(max_nat(load_max_len(s.take(i)), lml_val(s[i])), load_max_len(s.skip(i + 1))),
{
    assert(s =~= s.take(i) + seq![s[i]] + s.skip(i + 1));
    lemma_concat(s.take(i), seq![s[i]]);
    lemma_concat(s.take(i) + seq![s[i]], s.skip(i + 1));
    lemma_single(s[i]);
}

/// Taking an item out of a panel lowers neither the count nor the largest
/// group size above what they were.
proof fn lemma_removed(s: Seq<LoadState>, i: int)
    requires
        0 <= i < s.len(),
    ensures
        count_done(removed(s, i)) + done_val(s[i]) == count_done(s),
        load_max_len(removed(s, i)) <= load_max_len(s),
{
    let t = s.take(i) + s.skip(i + 1);
    assert forall|j: int| 0 <= j < t.len() implies done_val(#[trigger] removed(s, i)[j]) == done_val(t[j]) && lml_val(removed(s, i)[j]) == lml_val(t[j]) by {
    }
    lemma_proj(removed(s, i), t);
    lemma_concat(s.take(i), s.skip(i + 1));
    lemma_split_at(s, i);
}

/// Changing one item of a panel.
proof fn lemma_changed(a: Seq<LoadState>, b: Seq<LoadState>, i: int)
    requires
        0 <= i < a.len(),
        a.len() == b.len(),
        forall|j: int| 0 <= j < a.len() && j != i ==> #[trigger] b[j] == a[j],
    ensures
        count_done(b) + done_val(a[i]) == count_done(a) + done_val(b[i]),
        load_max_len(b) <= max_nat(load_max_len(a), lml_val(b[i])),
{
    assert(a.take(i) =~= b.take(i));
    assert(a.skip(i + 1) =~= b.skip(i + 1));
    lemma_split_at(a, i);
    lemma_split_at(b, i);
}

proof fn lemma_seq_max_len_prefix(s: Seq<ImageItem>, t: Seq<ImageItem>, n: int)
    requires
        0 <= n <= s.len(),
        n <= t.len(),
        s.take(n) == t.take(n),
    ensures
        seq_max_len(s, n) == seq_max_len(t, n),
    decreases n,
{
    if n > 0 {
        assert(s[n - 1] == s.take(n)[n - 1]);
        assert(t[n - 1] == t.take(n)[n - 1]);
        assert(s.take(n - 1) =~= s.take(n).take(n - 1));
        assert(t.take(n - 1) =~= t.take(n).take(n - 1));
        lemma_seq_max_len_prefix(s, t, n - 1);
    }
}

/// The images of a panel have its count and its largest group size.
proof fn lemma_only_images(s: Seq<LoadState>)
    ensures
        only_images(s).len() == count_done(s),
        seq_max_len(only_images(s), only_images(s).len() as int) == load_max_len(s),
    decreases s.len(),
{
    if s.len() > 0 {
        let r = s.drop_last();
        lemma_only_images(r);
        let o = only_images(s);
        let m = only_images(r).len() as int;
        if let LoadState::LoadDone(img) = s.last() {
            assert(o.take(m) =~= only_images(r).take(m));
            lemma_seq_max_len_prefix(o, only_images(r), m);
        }
    }
}

/// Loaded items of images have the images' largest group size.
proof fn lemma_boxed(t: Seq<ImageItem>)
    ensures
        count_done(boxed(t)) == t.len(),
        load_max_len(boxed(t)) == seq_max_len(t, t.len() as int),
    decreases t.len(),
{
    crate::mix_item::lemma_only_boxed(t);
    if t.len() > 0 {
        assert(boxed(t).drop_last() =~= boxed(t.drop_last()));
        lemma_boxed(t.drop_last());
        let n = t.len() - 1;
        assert(t.take(n) =~= t.drop_last().take(n));
        lemma_seq_max_len_prefix(t, t.drop_last(), n);
    }
}

proof fn lemma_stack_max_len_del(st: Seq<OuterStack>, k: int, del1: nat, del2: nat)
    requires
        del1 <= del2,
    ensures
        stack_max_len(st, k, del1) <= stack_max_len(st, k, del2),
{
}

proof fn lemma_stack_max_len_prefix(st: Seq<OuterStack>, k: int, del: nat)
    requires
        0 <= k < st.len(),
    ensures
        stack_max_len(st.drop_last(), k, del) == stack_max_len(st, k, del),
    decreases k,
{
    if k > 0 {
        let d = st[k - 1].data;
        lemma_stack_max_len_prefix(st, k - 1, count_done(d[2]@));
    }
}

/// Opening a group and closing it again brings the layer back: the group
/// keeps the items of its first two rows and its place, the items of its
/// third row come at the end of the assist panel, and the stack and the
/// name of the third panel are as they were. A group left with nothing in
/// its first two rows is taken out of its panel instead.
pub proof fn lemma_enter_back(a: MainStruct, b: MainStruct, c: MainStruct, pos: (usize, usize))
    requires
        a.wf(),
        pos.0 < 3,
        pos.1 < a.data_list[pos.0 as int]@.len(),
        a.data_list[pos.0 as int]@[pos.1 as int] matches LoadState::LoadDone(img) && img.attr is Group,
        entered(a, b, pos),
        b.wf(),
        popped(b, c),
    ensures
        c.info_stack@ == a.info_stack@,
        c.unrename_name == a.unrename_name,
        c.proof_hash == a.proof_hash,
        a.data_list[pos.0 as int]@[pos.1 as int] matches LoadState::LoadDone(img) && img.attr matches Content::Group(g) && ({
            let (p, i) = (pos.0 as int, pos.1 as int);
            let valid = g.inner.0@.len() + g.inner.1@.len() > 0;
            let lenp = a.data_list[p]@.len() - if valid { 0int } else { 1int };
            let base = |q: int| if q == p { c.data_list[q]@.take(lenp) } else { a.data_list[q]@ };
            &&& c.data_list[0]@ == base(0)
            &&& c.data_list[1]@ == base(1) + boxed(g.inner.2@)
            &&& c.data_list[2]@ == base(2)
            &&& valid ==> base(p).len() == a.data_list[p]@.len()
            &&& valid ==> forall|j: int| 0 <= j < a.data_list[p]@.len() && j != i ==> #[trigger] base(p)[j] == a.data_list[p]@[j]
            &&& valid ==> (base(p)[i] matches LoadState::LoadDone(img2) && same_but_attr(img2, img)
                && (img2.attr matches Content::Group(h) && h.inner.0@ == g.inner.0@ && h.inner.1@ == g.inner.1@
                && h.inner.2@.len() == 0))
            &&& !valid ==> base(p) == removed(a.data_list[p]@, i)
        }),
{
    let (p, i) = (pos.0 as int, pos.1 as int);
    let top = b.info_stack@.last();
    assert(b.info_stack@.drop_last() == a.info_stack@);
    assert(top.pos == pos);
    if let LoadState::LoadDone(img) = a.data_list[p]@[i] {
        if let Content::Group(g) = img.attr {
            crate::mix_item::lemma_only_boxed(g.inner.0@);
            crate::mix_item::lemma_only_boxed(g.inner.1@);
            crate::mix_item::lemma_only_boxed(g.inner.2@);
            assert(entry_ok(b.info_stack@[b.info_stack@.len() - 1]));
            let valid = g.inner.0@.len() + g.inner.1@.len() > 0;
            if !valid {
                assert(top.data[p]@[i].rect_of() == a.data_list[p]@[i].rect_of());
                assert(removed(top.data[p]@, i) =~= removed(a.data_list[p]@, i));
            }
        }
    }
}

/// Closing the top layer never raises the number of names a save can need:
/// what the closed layer held is counted, in `max_len_spec`, where it goes.
pub proof fn lemma_pop_max_len(before: MainStruct, after: MainStruct)
    requires
        before.wf(),
        before.info_stack@.len() > 0,
        popped(before, after),
    ensures
        after.max_len_spec() <= before.max_len_spec(),
{
    let st = before.info_stack@;
    let k = st.len() - 1;
    let e = st.last();
    let (p, i) = (e.pos.0 as int, e.pos.1 as int);
    let d = before.data_list;
    let valid = only_images(d[0]@).len() + only_images(d[1]@).len() > 0;
    let out = boxed(only_images(d[2]@));
    assert(entry_ok(st[k]));
    lemma_only_images(d[0]@);
    lemma_only_images(d[1]@);
    lemma_only_images(d[2]@);
    lemma_boxed(only_images(d[2]@));
    let lenp = e.data[p]@.len() - if valid { 0int } else { 1int };
    let bp = after.data_list[p]@.take(lenp);
    let gml = max_nat(count_done(d[0]@) + count_done(d[1]@), max_nat(load_max_len(d[0]@), load_max_len(d[1]@)));
    // the row the group was in
    if valid {
        lemma_changed(e.data[p]@, bp, i);
        if let LoadState::LoadDone(img) = bp[i] {
            if let Content::Group(h) = img.attr {
                assert(seq_max_len(h.inner.2@, h.inner.2@.len() as int) == 0);
                assert(lml_val(bp[i]) <= gml);
            }
        }
    } else {
        lemma_removed(e.data[p]@, i);
    }
    let b0 = if p == 0 { bp } else { e.data[0]@ };
    let b1 = if p == 1 { bp } else { e.data[1]@ };
    let b2 = if p == 2 { bp } else { e.data[2]@ };
    assert(after.data_list[0]@ == b0);
    assert(after.data_list[1]@ == b1 + out);
    assert(after.data_list[2]@ == b2);
    lemma_concat(b1, out);
    assert(count_done(b0) <= count_done(e.data[0]@));
    assert(count_done(b1) <= count_done(e.data[1]@));
    assert(count_done(b2) <= count_done(e.data[2]@));
    assert(load_max_len(b0) <= max_nat(load_max_len(e.data[0]@), gml));
    assert(load_max_len(b1) <= max_nat(load_max_len(e.data[1]@), gml));
    assert(load_max_len(b2) <= max_nat(load_max_len(e.data[2]@), gml));
    lemma_stack_max_len_del(st, k, count_done(b2), count_done(e.data[2]@));
    lemma_stack_max_len_prefix(st, k, count_done(b2));
    assert(after.info_stack@ == st.drop_last());
}


/// With no group open, the names a save needs are the larger of the number
/// of loaded images (and groups) in the main and assist panels and the
/// largest need of a group among them; the third panel does not count.
pub proof fn lemma_max_len_at_top(m: MainStruct)
    requires
        m.info_stack@.len() == 0,
    ensures
        m.max_len_spec() == max_nat(
            count_done(m.data_list[0]@) + count_done(m.data_list[1]@),
            max_nat(load_max_len(m.data_list[0]@), load_max_len(m.data_list[1]@)),
        ),
{
}


/// The main panel that loading reports go to is the bottom layer's: the
/// first layer pushed when a group is open, the shown panels otherwise.
pub proof fn lemma_first_layer_is_bottom(m: MainStruct)
    ensures
        m.info_stack@.len() > 0 ==> first_layer(m) == m.info_stack@[0].data[0]@,
        m.info_stack@.len() == 0 ==> first_layer(m) == m.data_list[0]@,
{
}


/// Layers that agree on everything but the bottom layer's third panel add
/// the same to the names a save needs.
proof fn lemma_stack_bottom_unrename(st1: Seq<OuterStack>, st2: Seq<OuterStack>, k: int, del: nat)
    requires
        st1.len() == st2.len(),
        0 <= k <= st1.len(),
        forall|j: int| 0 < j < st1.len() ==> (#[trigger] st1[j]).data[0]@ == st2[j].data[0]@
            && st1[j].data[1]@ == st2[j].data[1]@ && st1[j].data[2]@ == st2[j].data[2]@,
        st1.len() > 0 ==> st1[0].data[0]@ == st2[0].data[0]@ && st1[0].data[1]@ == st2[0].data[1]@,
    ensures
        stack_max_len(st1, k, del) == stack_max_len(st2, k, del),
    decreases k,
{
    if k > 0 {
        if k - 1 > 0 {
            assert(st1[k - 1].data[0]@ == st2[k - 1].data[0]@);
            lemma_stack_bottom_unrename(st1, st2, k - 1, count_done(st1[k - 1].data[2]@));
        } else {
            lemma_stack_bottom_unrename(st1, st2, k - 1, count_done(st1[k - 1].data[2]@));
            lemma_stack_bottom_unrename(st1, st2, k - 1, count_done(st2[k - 1].data[2]@));
        }
    }
}

/// The third panel of the bottom layer (the panel of items left out of the
/// renaming) is never saved, so it never changes the number of names a save
/// needs, whichever layer is shown: two states that differ only there need
/// the same number.
pub proof fn lemma_max_len_ignores_bottom_unrename(m1: MainStruct, m2: MainStruct)
    requires
        m1.data_list[0]@ == m2.data_list[0]@,
        m1.data_list[1]@ == m2.data_list[1]@,
        m1.info_stack@.len() == m2.info_stack@.len(),
        m1.info_stack@.len() > 0 ==> m1.data_list[2]@ == m2.data_list[2]@,
        forall|j: int| 0 < j < m1.info_stack@.len() ==> (#[trigger] m1.info_stack@[j]).data[0]@
            == m2.info_stack@[j].data[0]@ && m1.info_stack@[j].data[1]@ == m2.info_stack@[j].data[1]@
            && m1.info_stack@[j].data[2]@ == m2.info_stack@[j].data[2]@,
        m1.info_stack@.len() > 0 ==> m1.info_stack@[0].data[0]@ == m2.info_stack@[0].data[0]@
            && m1.info_stack@[0].data[1]@ == m2.info_stack@[0].data[1]@,
    ensures
        m1.max_len_spec() == m2.max_len_spec(),
{
    let n = m1.info_stack@.len() as int;
    if n > 0 {
        lemma_stack_bottom_unrename(m1.info_stack@, m2.info_stack@, n, count_done(m1.data_list[2]@));
    }
}


/// The thumbnails of the single images that `it` holds, at any depth and in
/// every row, in order (the item itself when it is a single image).
pub open spec fn item_singles(it: ImageItem) -> Seq<egui::TextureId>
    decreases it, 0int,
{
    match it.attr {
        Content::Single(_) => seq![it.texture_id_tuple.0],
        Content::Group(g) => seq_singles(g.inner.0@, g.inner.0@.len() as int) + seq_singles(
            g.inner.1@,
            g.inner.1@.len() as int,
        ) + seq_singles(g.inner.2@, g.inner.2@.len() as int),
    }
}

/// The single images held by the first `n` items of `s`.
pub open spec fn seq_singles(s: Seq<ImageItem>, n: int) -> Seq<egui::TextureId>
    decreases s, n,
{
    if n <= 0 || n > s.len() {
        Seq::empty()
    } else {
        seq_singles(s, n - 1) + item_singles(s[n - 1])
    }
}

/// The single images held by the loaded items among the first `n` of `s`.
pub open spec fn load_singles(s: Seq<LoadState>, n: int) -> Seq<egui::TextureId>
    decreases n,
{
    if n <= 0 || n > s.len() {
        Seq::empty()
    } else {
        load_singles(s, n - 1) + match s[n - 1] {
            LoadState::LoadDone(img) => item_singles(img),
            _ => Seq::empty(),
        }
    }
}

/// `a` holds one copy per thumbnail of `ids`, in order, each from the file
/// kept for that thumbnail.
pub open spec fn one_copy_each(
    a: Seq<(Seq<char>, Seq<char>)>,
    ids: Seq<egui::TextureId>,
    m: Seq<(egui::TextureId, Seq<char>, Seq<char>)>,
    old_dir: Seq<char>,
) -> bool {
    &&& a.len() == ids.len()
    &&& forall|k: int|
        0 <= k < a.len() ==> lookup(m, #[trigger] ids[k]) is Some && a[k].0 == old_dir + (lookup(m, ids[k])->0).0
}

proof fn lemma_one_copy_concat(
    a1: Seq<(Seq<char>, Seq<char>)>,
    i1: Seq<egui::TextureId>,
    a2: Seq<(Seq<char>, Seq<char>)>,
    i2: Seq<egui::TextureId>,
    m: Seq<(egui::TextureId, Seq<char>, Seq<char>)>,
    old_dir: Seq<char>,
)
    requires
        one_copy_each(a1, i1, m, old_dir),
        one_copy_each(a2, i2, m, old_dir),
    ensures
        one_copy_each(a1 + a2, i1 + i2, m, old_dir),
{
    let a = a1 + a2;
    let i = i1 + i2;
    assert forall|k: int| 0 <= k < a.len() implies lookup(m, #[trigger] i[k]) is Some && a[k].0
        == old_dir + (lookup(m, i[k])->0).0 by {
        if k < a1.len() {
            assert(i[k] == i1[k] && a[k] == a1[k]);
        } else {
            assert(i[k] == i2[k - a1.len()] && a[k] == a2[k - a1.len()]);
        }
    }
}

proof fn lemma_item_copies(
    it: ImageItem,
    m: Seq<(egui::TextureId, Seq<char>, Seq<char>)>,
    prefix: Seq<char>,
    new_dir: Seq<char>,
    old_dir: Seq<char>,
)
    ensures
        copy_item(it, m, prefix, new_dir, old_dir).1 is None ==> one_copy_each(
            copy_item(it, m, prefix, new_dir, old_dir).0,
            item_singles(it),
            m,
            old_dir,
        ),
    decreases it, 0int,
{
    let name = prefixed(prefix, it.name@);
    match it.attr {
        Content::Single(_) => {
            let ids = item_singles(it);
            assert(ids[0] == it.texture_id_tuple.0);
        },
        Content::Group(g) => {
            lemma_seq_copies(g.inner.0@, g.inner.0@.len() as int, m, name, new_dir, old_dir);
            lemma_seq_copies(g.inner.1@, g.inner.1@.len() as int, m, name, new_dir, old_dir);
            lemma_seq_copies(g.inner.2@, g.inner.2@.len() as int, m, name, new_dir, old_dir);
            let (a0, e0) = copy_seq(g.inner.0@, g.inner.0@.len() as int, m, name, new_dir, old_dir);
            let (a1, e1) = copy_seq(g.inner.1@, g.inner.1@.len() as int, m, name, new_dir, old_dir);
            let (a2, e2) = copy_seq(g.inner.2@, g.inner.2@.len() as int, m, name, new_dir, old_dir);
            let i0 = seq_singles(g.inner.0@, g.inner.0@.len() as int);
            let i1 = seq_singles(g.inner.1@, g.inner.1@.len() as int);
            let i2 = seq_singles(g.inner.2@, g.inner.2@.len() as int);
            if e0 is None && e1 is None && e2 is None {
                lemma_one_copy_concat(a0, i0, a1, i1, m, old_dir);
                lemma_one_copy_concat(a0 + a1, i0 + i1, a2, i2, m, old_dir);
            }
        },
    }
}

proof fn lemma_seq_copies(
    s: Seq<ImageItem>,
    n: int,
    m: Seq<(egui::TextureId, Seq<char>, Seq<char>)>,
    prefix: Seq<char>,
    new_dir: Seq<char>,
    old_dir: Seq<char>,
)
    ensures
        copy_seq(s, n, m, prefix, new_dir, old_dir).1 is None ==> one_copy_each(
            copy_seq(s, n, m, prefix, new_dir, old_dir).0,
            seq_singles(s, n),
            m,
            old_dir,
        ),
    decreases s, n,
{
    if n <= 0 || n > s.len() {
    } else {
        lemma_seq_copies(s, n - 1, m, prefix, new_dir, old_dir);
        lemma_item_copies(s[n - 1], m, prefix, new_dir, old_dir);
        let (a, e) = copy_seq(s, n - 1, m, prefix, new_dir, old_dir);
        if e is None {
            let (b, e2) = copy_item(s[n - 1], m, prefix, new_dir, old_dir);
            if e2 is None {
                lemma_one_copy_concat(a, seq_singles(s, n - 1), b, item_singles(s[n - 1]), m, old_dir);
            }
        }
    }
}

proof fn lemma_load_copies(
    s: Seq<LoadState>,
    n: int,
    m: Seq<(egui::TextureId, Seq<char>, Seq<char>)>,
    new_dir: Seq<char>,
    old_dir: Seq<char>,
)
    ensures
        copy_loads(s, n, m, new_dir, old_dir).1 is None ==> one_copy_each(
            copy_loads(s, n, m, new_dir, old_dir).0,
            load_singles(s, n),
            m,
            old_dir,
        ),
    decreases n,
{
    if n <= 0 || n > s.len() {
    } else {
        lemma_load_copies(s, n - 1, m, new_dir, old_dir);
        let (a, e) = copy_loads(s, n - 1, m, new_dir, old_dir);
        if e is None {
            match s[n - 1] {
                LoadState::LoadDone(img) => {
                    lemma_item_copies(img, m, Seq::empty(), new_dir, old_dir);
                    let (b, e2) = copy_item(img, m, Seq::empty(), new_dir, old_dir);
                    if e2 is None {
                        lemma_one_copy_concat(a, load_singles(s, n - 1), b, item_singles(img), m, old_dir);
                    }
                },
                _ => {
                    assert(load_singles(s, n) =~= load_singles(s, n - 1));
                },
            }
        }
    }
}

/// A save that finds every file copies every single image of the main and
/// assist panels exactly once, in order: those on the panels and those held
/// by groups, at any depth and in every row of a group. The list has one
/// copy per single image, and the copy of each image starts from the file
/// kept for its thumbnail.
pub proof fn lemma_save_copies_every_image(
    r0: Seq<LoadState>,
    r1: Seq<LoadState>,
    m: Seq<(egui::TextureId, Seq<char>, Seq<char>)>,
    new_dir: Seq<char>,
    old_dir: Seq<char>,
)
    ensures
        ({
            let (copies, missing) = save_copies(r0, r1, m, new_dir, old_dir);
            let ids = load_singles(r0, r0.len() as int) + load_singles(r1, r1.len() as int);
            missing is None ==> {
                &&& copies.len() == ids.len()
                &&& forall|k: int|
                    0 <= k < ids.len() ==> lookup(m, #[trigger] ids[k]) is Some && copies[k].0
                        == old_dir + (lookup(m, ids[k])->0).0
            }
        }),
{
    lemma_load_copies(r0, r0.len() as int, m, new_dir, old_dir);
    lemma_load_copies(r1, r1.len() as int, m, new_dir, old_dir);
    let (a0, e0) = copy_loads(r0, r0.len() as int, m, new_dir, old_dir);
    let (a1, e1) = copy_loads(r1, r1.len() as int, m, new_dir, old_dir);
    if e0 is None && e1 is None {
        lemma_one_copy_concat(a0, load_singles(r0, r0.len() as int), a1, load_singles(r1, r1.len() as int), m, old_dir);
    }
}

} // verus!
