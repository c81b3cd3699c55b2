//! Items that show only a text; the main view uses them for the images that
//! are still loading or failed to load.
use vstd::prelude::*;
use crate::egui_types::{id_from_text, text_id, zero_rect};
use crate::self_trait::{Content, DragItem, IntoContent, PosItem, SplitMergeItem};
use vstd::string::StringExecFns;
use vstd::string::StringSliceAdditionalSpecFns;
use vstd::utf8::{
    decode_utf8, decode_utf8_encode_utf8, encode_utf8, encode_utf8_decode_utf8, encode_utf8_valid_utf8,
    is_char_boundary_iff_not_is_continuation_byte, is_char_boundary_start_end_of_seq,
    is_continuation_byte, valid_utf8,
};
use rand::Rng;

verus! {

pub open spec fn is_ascii_alphanumeric(c: char) -> bool {
    ('a' <= c && c <= 'z') || ('A' <= c && c <= 'Z') || ('0' <= c && c <= '9')
}

/// `length` characters sampled by `rand`'s `Alphanumeric` distribution
/// from the thread's generator (`thread_rng().sample_iter(&Alphanumeric)`).
/// Claimed: the length, and that each character is an ASCII letter or
/// digit. Which characters come out is left to chance.
#[verifier::external_body]
fn sample_alphanumeric(length: usize) -> (r: String)
    ensures
        r@.len() == length,
        forall|i: int| 0 <= i < r@.len() ==> is_ascii_alphanumeric(#[trigger] r@[i]),
{
    rand::thread_rng().sample_iter(&rand::distributions::Alphanumeric).take(length).map(
        char::from,
    ).collect()
}

/// A random string of `length` ASCII letters and digits, used to name new
/// items.
pub fn random_alphanumeric_string(length: usize) -> (r: String)
    ensures
        r@.len() == length,
        forall|i: int| 0 <= i < r@.len() ==> is_ascii_alphanumeric(#[trigger] r@[i]),
{
    sample_alphanumeric(length)
}

/// An item that shows a text; `BG` and `TXT` pick its background and text
/// colours.
#[derive(Debug)]
pub struct TextItemPos<const BG: usize, const TXT: usize> {
    pub string: String,
    pub id: egui::Id,
    pub rect: egui::Rect,
    pub editable: bool,
}

/// The item of an image that is still loading.
pub type LoadingTextItem = TextItemPos<3, 5>;

/// The item of an image that failed to load.
pub type LoadErrTextItem = TextItemPos<1, 0>;

/// The byte length of a text in UTF-8, as `str::len` reports it.
pub open spec fn byte_len(s: Seq<char>) -> nat {
    (encode_utf8(s).len() as usize) as nat
}

impl<const BG: usize, const TXT: usize> TextItemPos<BG, TXT> {
    /// The same item with other colours.
    pub fn trans2othercolor<const BG1: usize, const TXT1: usize>(self) -> (r: TextItemPos<
        BG1,
        TXT1,
    >)
        ensures
            r.string == self.string,
            r.id == self.id,
            r.rect == self.rect,
            r.editable == self.editable,
    {
        let TextItemPos { string, id, rect, editable } = self;
        TextItemPos { string, id, rect, editable }
    }

    /// An item with a random text of ten letters and digits.
    pub fn new() -> (r: Self)
        ensures
            r.string@.len() == 10,
            r.id == text_id(r.string@),
            !r.editable,
    {
        let str = random_alphanumeric_string(10);
        let rect = zero_rect();
        let id = id_from_text(str.as_str());
        let string = str;
        TextItemPos { string, id, rect, editable: false }
    }

    /// An item showing `str`, identified by it.
    pub fn from_str(str: String) -> (r: Self)
        ensures
            r.string == str,
            r.id == text_id(str@),
            !r.editable,
    {
        let id = id_from_text(str.as_str());
        TextItemPos { id, string: str, rect: zero_rect(), editable: false }
    }

    pub fn editable(&self) -> (r: bool)
        ensures
            r == self.editable,
    {
        self.editable
    }

    pub fn set_able(&mut self, able: bool)
        ensures
            final(self).editable == able,
            final(self).string == old(self).string,
            final(self).id == old(self).id,
            final(self).rect == old(self).rect,
    {
        self.editable = able;
    }
}

impl<const BG: usize, const TXT: usize> Default for TextItemPos<BG, TXT> {
    fn default() -> (r: Self)
        ensures
            r.string@.len() == 10,
            r.id == text_id(r.string@),
            !r.editable,
    {
        Self::new()
    }
}

impl<const BG: usize, const TXT: usize> PosItem for TextItemPos<BG, TXT> {
    type Rect = egui::Rect;

    open spec fn rect_of(&self) -> egui::Rect {
        self.rect
    }

    open spec fn with_rect(self, rect: egui::Rect) -> Self {
        TextItemPos { string: self.string, id: self.id, rect, editable: self.editable }
    }

    proof fn lemma_with_rect(x: Self, a: egui::Rect, b: egui::Rect) {
    }

    fn item_rect(&self) -> (r: egui::Rect) {
        self.rect
    }

    fn update_item_rect(&mut self, rect: egui::Rect) {
        self.rect = rect;
    }
}

impl<const BG: usize, const TXT: usize> DragItem for TextItemPos<BG, TXT> {
    open spec fn id_of(&self) -> egui::Id {
        self.id
    }

    proof fn lemma_id_follows(x: Self, r: egui::Rect) {
    }

    fn id(&self) -> (r: egui::Id) {
        self.id
    }
}

impl<const BG: usize, const TXT: usize> IntoContent for TextItemPos<BG, TXT> {
    type Single = String;

    type Group = String;

    type MergeUsed = ();

    /// An empty text is an empty group; a text longer than ten bytes is
    /// the product of merges, so a group too.
    open spec fn content_of(&self) -> Content<String, String> {
        let n = byte_len(self.string@);
        if n == 0 || n > 10 {
            Content::Group(self.string)
        } else {
            Content::Single(self.string)
        }
    }

    open spec fn is_emptied(&self, before: &Self) -> bool {
        &&& self.string@ == Seq::<char>::empty()
        &&& self.id == before.id
        &&& self.rect == before.rect
        &&& self.editable == before.editable
    }

    open spec fn is_single_spec(&self) -> bool {
        let n = byte_len(self.string@);
        !(n == 0 || n > 10)
    }

    open spec fn name_spec(&self) -> Seq<char> {
        self.string@
    }

    open spec fn merge_able_spec(&self, other: &Self) -> bool {
        true
    }

    /// The texts are joined and the result is identified by the new text.
    open spec fn merge_result(&self, other: &Self, help: &(), result: &Self) -> bool {
        &&& result.string@ == self.string@ + other.string@
        &&& result.id == text_id(result.string@)
        &&& result.rect == self.rect
        &&& result.editable == self.editable
    }

    proof fn lemma_merge_place(a: Self, b: Self, help: (), result: Self) {
    }

    proof fn lemma_merge_able(a: Self, b: Self, r: egui::Rect) {
    }

    fn get_content(&mut self) -> (r: Content<String, String>) {
        let mut string = String::new();
        std::mem::swap(&mut string, &mut self.string);
        let len = string.as_str().len();
        if len == 0 || len > 10 {
            Content::Group(string)
        } else {
            Content::Single(string)
        }
    }

    fn is_single(&self) -> (r: bool) {
        let len = self.string.as_str().len();
        if len == 0 || len > 10 {
            false
        } else {
            true
        }
    }

    fn name(&self) -> (r: &str) {
        self.string.as_str()
    }

    fn merge_able(&self, other_item: &Self) -> (r: bool) {
        true
    }

    fn merge(self, other_item: Self, help_source: &()) -> (r: Self) {
        let mut s = self;
        let new_str = s.string.concat(other_item.string.as_str());
        s.string = new_str;
        s.id = id_from_text(s.string.as_str());
        s
    }
}

/// The `k`-th piece of ten bytes of `b` (the last one may be shorter).
pub open spec fn chunk(b: Seq<u8>, k: int) -> Seq<u8> {
    let s = 10 * k;
    let e = if s + 10 < b.len() {
        s + 10
    } else {
        b.len() as int
    };
    b.subrange(s, e)
}

/// How many pieces of ten bytes `n` bytes make.
pub open spec fn chunk_count(n: nat) -> nat {
    (n + 9) / 10
}

/// The texts of `s` one after the other.
pub open spec fn concat_strings<const BG: usize, const TXT: usize>(s: Seq<TextItemPos<BG, TXT>>) -> Seq<char>
    decreases s.len(),
{
    if s.len() == 0 {
        Seq::empty()
    } else {
        concat_strings(s.drop_last()) + s.last().string@
    }
}

/// The texts of the items one after the other.
fn concat_items<const BG: usize, const TXT: usize>(v: &Vec<TextItemPos<BG, TXT>>) -> (r: String)
    ensures
        r@ == concat_strings(v@),
{
    let mut res = String::new();
    let n = v.len();
    for j in 0..n
        invariant
            n == v@.len(),
            res@ == concat_strings(v@.take(j as int)),
    {
        assert(v@.take(j + 1).drop_last() =~= v@.take(j as int));
        res.append(v[j].string.as_str());
    }
    assert(v@.take(n as int) =~= v@);
    res
}

/// A text in UTF-8 never starts in the middle of a character.
proof fn lemma_first_byte_leads(s: Seq<u8>)
    requires
        valid_utf8(s),
        s.len() > 0,
    ensures
        !is_continuation_byte(s[0]),
{
    is_char_boundary_iff_not_is_continuation_byte(s, 0);
}

/// Encoding two texts one after the other gives their encodings one after
/// the other.
proof fn lemma_encode_concat(x: Seq<char>, y: Seq<char>)
    ensures
        encode_utf8(x + y) == encode_utf8(x) + encode_utf8(y),
    decreases x.len(),
{
    if x.len() == 0 {
        assert(x + y =~= y);
        assert(encode_utf8(x) + encode_utf8(y) =~= encode_utf8(y));
    } else {
        assert((x + y).drop_first() =~= x.drop_first() + y);
        lemma_encode_concat(x.drop_first(), y);
        assert(encode_utf8(x + y) =~= encode_utf8(x) + encode_utf8(y));
    }
}

/// The first `k` pieces of a split text encode its first `10 * k` bytes.
proof fn lemma_pieces_encode<const BG: usize, const TXT: usize>(
    b: Seq<u8>,
    pieces: Seq<TextItemPos<BG, TXT>>,
    k: int,
)
    requires
        0 <= k <= pieces.len(),
        pieces.len() == chunk_count(b.len()),
        forall|j: int| 0 <= j < chunk_count(b.len()) ==> valid_utf8(#[trigger] chunk(b, j)),
        forall|j: int|
            0 <= j < pieces.len() ==> (#[trigger] pieces[j]).string@ == decode_utf8(chunk(b, j)),
    ensures
        encode_utf8(concat_strings(pieces.take(k))) == b.subrange(
            0,
            if 10 * k < b.len() {
                10 * k
            } else {
                b.len() as int
            },
        ),
    decreases k,
{
    if k == 0 {
        assert(pieces.take(0) =~= Seq::<TextItemPos<BG, TXT>>::empty());
        assert(b.subrange(0, 0) =~= Seq::<u8>::empty());
    } else {
        lemma_pieces_encode(b, pieces, k - 1);
        let prev = pieces.take(k - 1);
        assert(pieces.take(k).drop_last() =~= prev);
        let text = pieces[k - 1].string@;
        lemma_encode_concat(concat_strings(prev), text);
        decode_utf8_encode_utf8(chunk(b, k - 1));
        assert(encode_utf8(concat_strings(pieces.take(k))) =~= b.subrange(
            0,
            if 10 * k < b.len() {
                10 * k
            } else {
                b.len() as int
            },
        ));
    }
}

/// Splitting a text into its pieces of ten bytes and putting the pieces
/// back into the emptied text gives the text back, and hands nothing out.
pub proof fn lemma_split_embed_restores<const BG: usize, const TXT: usize>(
    text: String,
    rows: Seq<Seq<TextItemPos<BG, TXT>>>,
    emptied: String,
    refilled: String,
    out: Seq<TextItemPos<BG, TXT>>,
)
    requires
        SplitMergeItem::<TextItemPos<BG, TXT>>::can_split(&text),
        SplitMergeItem::<TextItemPos<BG, TXT>>::split_rows(&text, rows),
        SplitMergeItem::<TextItemPos<BG, TXT>>::is_split_of(&emptied, &text),
        SplitMergeItem::<TextItemPos<BG, TXT>>::embed_result(&refilled, &emptied, rows, out),
    ensures
        refilled@ == text@,
        out.len() == 0,
{
    let b = encode_utf8(text@);
    lemma_pieces_encode(b, rows[0], rows[0].len() as int);
    assert(rows[0].take(rows[0].len() as int) =~= rows[0]);
    assert(b.subrange(0, b.len() as int) =~= b);
    encode_utf8_decode_utf8(text@);
    encode_utf8_decode_utf8(concat_strings(rows[0]));
    assert(concat_strings(rows[1]) =~= Seq::<char>::empty());
    assert(concat_strings(rows[2]) =~= Seq::<char>::empty());
    assert(refilled@ =~= text@);
}

/// A text is a group of the texts of ten bytes it is made of: it hands
/// them out in the first row, and takes back the texts of the first two
/// rows at its end.
impl<const BG: usize, const TXT: usize> SplitMergeItem<TextItemPos<BG, TXT>> for String {
    open spec fn split_rows(&self, rows: Seq<Seq<TextItemPos<BG, TXT>>>) -> bool {
        let b = encode_utf8(self@);
        &&& rows.len() == 3
        &&& rows[1].len() == 0
        &&& rows[2].len() == 0
        &&& rows[0].len() == chunk_count(b.len())
        &&& forall|k: int|
            0 <= k < rows[0].len() ==> (#[trigger] rows[0][k]).string@ == decode_utf8(
                chunk(b, k),
            ) && rows[0][k].id == text_id(rows[0][k].string@) && !rows[0][k].editable
    }

    /// Every piece of ten bytes is a whole text in UTF-8.
    open spec fn can_split(&self) -> bool {
        let b = encode_utf8(self@);
        forall|k: int| 0 <= k < chunk_count(b.len()) ==> valid_utf8(#[trigger] chunk(b, k))
    }

    open spec fn is_split_of(&self, before: &Self) -> bool {
        self@.len() == 0
    }

    /// The texts of the first two rows are added at the end; those of the
    /// third row are handed out as one item, if there are any.
    open spec fn embed_result(
        &self,
        before: &Self,
        rows: Seq<Seq<TextItemPos<BG, TXT>>>,
        out: Seq<TextItemPos<BG, TXT>>,
    ) -> bool {
        let c = concat_strings(rows[2]);
        &&& self@ == before@ + concat_strings(rows[0]) + concat_strings(rows[1])
        &&& if c.len() > 0 {
            &&& out.len() == 1
            &&& out[0].string@ == c
            &&& out[0].id == text_id(c)
            &&& !out[0].editable
        } else {
            out.len() == 0
        }
    }

    open spec fn back_top_result(
        &self,
        parent: &TextItemPos<BG, TXT>,
        result: &TextItemPos<BG, TXT>,
    ) -> bool {
        &&& result.string@ == parent.string@ + self@
        &&& result.id == text_id(result.string@)
        &&& result.rect == parent.rect
        &&& result.editable == parent.editable
    }

    open spec fn can_hold(&self, parent: &TextItemPos<BG, TXT>) -> bool {
        true
    }

    /// A text is worth keeping when it is not empty.
    open spec fn is_valid_spec(outer: &TextItemPos<BG, TXT>) -> bool {
        outer.string@.len() != 0
    }

    open spec fn content_num_spec(&self) -> nat {
        chunk_count(byte_len(self@))
    }

    fn split(&mut self) -> (r: [Vec<TextItemPos<BG, TXT>>; 3]) {
        let mut s = String::new();
        std::mem::swap(&mut s, self);
        let ghost b = encode_utf8(s@);
        let n = s.as_str().as_bytes().len();
        let mut rest: &str = s.as_str();
        let mut items: Vec<TextItemPos<BG, TXT>> = Vec::new();
        let ghost mut start: int = 0;
        let mut k: usize = 0;
        while rest.as_bytes().len() > 0
            invariant
                n == b.len(),
                0 <= start <= n,
                start + rest.spec_bytes().len() == n,
                rest.spec_bytes() == b.subrange(start, n as int),
                rest.spec_bytes().len() > 0 ==> start == 10 * k,
                rest.spec_bytes().len() == 0 ==> k == chunk_count(n as nat),
                items@.len() == k,
                forall|j: int| 0 <= j < chunk_count(b.len()) ==> valid_utf8(#[trigger] chunk(b, j)),
                forall|j: int|
                    0 <= j < k ==> (#[trigger] items@[j]).string@ == decode_utf8(chunk(b, j))
                        && items@[j].id == text_id(items@[j].string@) && !items@[j].editable,
            decreases n - start,
        {
            let ghost bytes = rest.spec_bytes();
            proof {
                encode_utf8_valid_utf8(rest@);
            }
            let len = rest.as_bytes().len();
            let mid = if len > 10 {
                proof {
                    let next = chunk(b, k + 1);
                    assert(next[0] == bytes[10]);
                    lemma_first_byte_leads(next);
                    is_char_boundary_iff_not_is_continuation_byte(bytes, 10);
                }
                10
            } else {
                proof {
                    is_char_boundary_start_end_of_seq(bytes);
                }
                len
            };
            let (piece, tail) = rest.split_at(mid);
            proof {
                assert(piece.spec_bytes() =~= chunk(b, k as int));
                encode_utf8_decode_utf8(piece@);
                assert(tail.spec_bytes() =~= b.subrange(start + mid, n as int));
            }
            items.push(TextItemPos::from_str(piece.to_owned()));
            rest = tail;
            proof {
                start = start + mid;
            }
            k = k + 1;
        }
        [items, Vec::new(), Vec::new()]
    }

    fn embed(&mut self, vvec: [Vec<TextItemPos<BG, TXT>>; 3]) -> (r: Vec<TextItemPos<BG, TXT>>) {
        let c0 = concat_items(&vvec[0]);
        let c1 = concat_items(&vvec[1]);
        let c2 = concat_items(&vvec[2]);
        self.append(c0.as_str());
        self.append(c1.as_str());
        let mut out = Vec::new();
        if !c2.as_str().is_empty() {
            out.push(TextItemPos::from_str(c2));
        }
        out
    }

    fn back_top(self, parent: &mut TextItemPos<BG, TXT>) {
        parent.string.append(self.as_str());
        parent.id = id_from_text(parent.string.as_str());
    }

    fn is_valid(inner_type: &TextItemPos<BG, TXT>) -> (r: bool) {
        !inner_type.string.as_str().is_empty()
    }

    fn content_num(&self) -> (r: usize) {
        let len = self.as_str().len();
        let a = len / 10;
        if len % 10 == 0 {
            a
        } else {
            a + 1
        }
    }
}

} // verus!
