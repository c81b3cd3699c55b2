use image_sorter::app::{sorter_finish, sorter_plan, AppState, SorterPlan};
use image_sorter::dir::{hint_input_action, input_button_clicked, select_after_keys, warning_input_action, InputState};
use image_sorter::file_filter::image_extension;
use image_sorter::idx_name::{style_matches, IndexName, RenamePatternState};
use image_sorter::image_item::{rename_inner_layer, GroupAttr, ImageItem};
use image_sorter::input_panel::{rename_button_clicked, rename_enabled, rename_input_check, InputItem};
use image_sorter::mix_item::{box_load_img_vec, only_image, rename_load_inner, LoadEnum, LoadState};
use image_sorter::related_struct::{Event, Position};
use image_sorter::self_trait::{Content, DragItem, IntoContent, PosItem, SplitMergeItem};
use image_sorter::test_text::{random_alphanumeric_string, LoadErrTextItem, LoadingTextItem, TextItemPos};
use image_sorter::vec_ops::{rotate_one_pos, shift_one_pos, vec_process_with_id_output, vec_remove_item};

fn tex(n: u64) -> egui::TextureId {
    egui::TextureId::Managed(n)
}

fn rect(x: f32) -> egui::Rect {
    egui::Rect::from_min_size(egui::pos2(x, 0.0), egui::vec2(1.0, 1.0))
}

fn image(name: &str, n: u64) -> ImageItem {
    let mut i = ImageItem::from_texture_parts(tex(n), tex(n + 1000), name.to_string(), [4, 3]);
    i.update_item_rect(rect(n as f32));
    i
}

fn group(name: &str, r0: Vec<ImageItem>, r1: Vec<ImageItem>, r2: Vec<ImageItem>) -> ImageItem {
    let mut g = ImageItem::default();
    g.name = name.to_string();
    g.attr = Content::Group(GroupAttr { inner: (r0, r1, r2) });
    g.update_id();
    g
}

fn texts(names: &[&str]) -> Vec<LoadingTextItem> {
    names
        .iter()
        .enumerate()
        .map(|(k, n)| {
            let mut t = TextItemPos::from_str(n.to_string());
            t.update_item_rect(rect(k as f32));
            t
        })
        .collect()
}

fn strings(v: &Vec<LoadingTextItem>) -> Vec<String> {
    v.iter().map(|t| t.string.clone()).collect()
}

fn rects(v: &Vec<LoadingTextItem>) -> Vec<egui::Rect> {
    v.iter().map(|t| t.item_rect()).collect()
}

#[test]
fn events_combine() {
    let mut e = Event::default();
    assert!(e.is_empty());
    e.or(Event::Sclicked((1, 2)));
    assert!(matches!(e, Event::Sclicked((1, 2))));
    e.or(Event::Dclicked((1, 2)));
    assert!(matches!(e, Event::Dclicked((1, 2))));
    e.or(Event::Empty);
    assert!(matches!(e, Event::Dclicked((1, 2))));
    let mut e = Event::Dclicked((0, 0));
    e.or(Event::Sclicked((0, 0)));
    assert!(matches!(e, Event::Dclicked((0, 0))));
}

#[test]
fn remove_keeps_places() {
    let mut v = texts(&["a", "b", "c", "d"]);
    let places = rects(&v);
    let r = vec_remove_item(&mut v, 1);
    assert_eq!(r.string, "b");
    assert_eq!(strings(&v), vec!["a", "c", "d"]);
    assert_eq!(rects(&v), places[0..3].to_vec());
}

#[test]
fn shift_and_rotate() {
    let mut v = texts(&["a", "b", "c"]);
    let places = rects(&v);
    let end = shift_one_pos(&mut v, 0, 2);
    assert_eq!(end, places[2]);
    assert_eq!(rects(&v), vec![places[0], places[0], places[1]]);
    let mut v = texts(&["a", "b", "c"]);
    rotate_one_pos(&mut v, 0, 2);
    assert_eq!(rects(&v), vec![places[2], places[0], places[1]]);
    // indexes past the end are brought back
    let mut v = texts(&["a", "b", "c"]);
    rotate_one_pos(&mut v, 2, 0);
    assert_eq!(rects(&v), vec![places[1], places[2], places[0]]);
}

#[test]
fn drops_move_or_merge() {
    let mut v = texts(&["a", "b", "c", "d"]);
    let places = rects(&v);
    // before the next item is behind the item itself: nothing moves
    assert_eq!(vec_process_with_id_output(&mut v, 1, 2, Position::Before, &()), None);
    assert_eq!(strings(&v), vec!["a", "b", "c", "d"]);
    // past the end means after the last item
    assert_eq!(vec_process_with_id_output(&mut v, 0, 10, Position::Before, &()), None);
    assert_eq!(strings(&v), vec!["b", "c", "d", "a"]);
    assert_eq!(rects(&v), places);
    assert_eq!(vec_process_with_id_output(&mut v, 3, 0, Position::Before, &()), None);
    assert_eq!(strings(&v), vec!["a", "b", "c", "d"]);
    let ida = v[0].id();
    let idc = v[2].id();
    let r = vec_process_with_id_output(&mut v, 0, 2, Position::Middle, &());
    assert_eq!(r, Some((ida, idc)));
    assert_eq!(strings(&v), vec!["b", "ca", "d"]);
    assert_eq!(rects(&v), places[0..3].to_vec());
}

#[test]
fn group_sizes() {
    let g = GroupAttr {
        inner: (
            vec![image("a", 1), group("in", vec![], vec![], vec![])],
            vec![image("c", 3)],
            vec![group("big", vec![image("d", 4), image("e", 5), image("f", 6), image("g", 7)], vec![], vec![])],
        ),
    };
    assert_eq!(g.len(), 4);
    assert_eq!(g.max_len(), 4);
    assert_eq!(g.disp_len(), 2);
    let small = GroupAttr { inner: (vec![image("a", 1)], vec![], vec![]) };
    assert_eq!(small.max_len(), 1);
    assert_eq!(GroupAttr::default().len(), 0);
}

#[test]
fn image_merge_makes_a_group() {
    let a = image("a", 1);
    let b = image("b", 2);
    let ra = a.item_rect();
    let g = a.merge(b, &tex(99));
    assert!(!g.is_single());
    assert_eq!(g.name.len(), 5);
    assert!(g.name.chars().all(|c| c.is_ascii_alphanumeric()));
    assert_eq!(g.texture_id_tuple, (tex(99), tex(99)));
    assert_eq!(g.item_rect(), ra);
    let g2 = g.merge(image("c", 3), &tex(99));
    match &g2.attr {
        Content::Group(grp) => {
            let names: Vec<&str> = grp.inner.0.iter().map(|i| i.name.as_str()).collect();
            assert_eq!(names, vec!["a", "b", "c"]);
        }
        Content::Single(_) => panic!("a group stays a group"),
    }
}

#[test]
fn image_edit_and_content() {
    let mut a = image("a", 1);
    a.set_able(true);
    assert!(!a.editable());
    let mut g = group("g", vec![image("x", 2)], vec![], vec![]);
    g.set_able(true);
    assert!(g.editable());
    let c = g.get_content();
    assert!(matches!(c, Content::Group(_)));
    assert!(!g.is_single());
    assert!(matches!(&g.attr, Content::Group(e) if e.len() == 0));
    assert!(<GroupAttr as SplitMergeItem<ImageItem>>::is_valid(&a));
    assert!(!<GroupAttr as SplitMergeItem<ImageItem>>::is_valid(&g));
}

#[test]
fn rename_a_group_and_its_items() {
    let idx = IndexName::new(&"a0b1".to_string()).unwrap();
    let mut rows = (
        vec![image("p", 1), group("grp", vec![image("q", 2), image("r", 3)], vec![image("s", 4)], vec![image("t", 5)])],
        vec![image("u", 6)],
        vec![image("v", 7)],
    );
    rename_inner_layer(idx, &mut rows);
    let n: Vec<&str> = rows.0.iter().map(|i| i.name.as_str()).collect();
    assert_eq!(n, vec!["0", "1_grp"]);
    assert_eq!(rows.1[0].name, "2");
    assert_eq!(rows.2[0].name, "v");
    match &rows.0[1].attr {
        Content::Group(g) => {
            assert_eq!(g.inner.0[0].name, "0");
            assert_eq!(g.inner.0[1].name, "1");
            assert_eq!(g.inner.1[0].name, "2");
            assert_eq!(g.inner.2[0].name, "t");
        }
        Content::Single(_) => panic!(),
    }
    assert_eq!(rows.0[1].id(), egui::Id::unique("1_grp"));
}

#[test]
fn load_states() {
    let mut s = LoadState::new_with_string("pic.png".to_string());
    assert!(s.is_loading());
    assert!(!s.is_loaddone());
    assert_eq!(IntoContent::name(&s), "pic.png");
    let (name, ext) = s.load_image(tex(1), tex(2), [10, 20]);
    assert_eq!((name.as_str(), ext.as_str()), ("pic.png", "png"));
    assert!(s.is_loaddone());
    match &s {
        LoadState::LoadDone(img) => {
            assert_eq!(img.texture_id_tuple, (tex(1), tex(2)));
            assert!(matches!(img.attr, Content::Single([10, 20])));
            assert_eq!(img.id(), egui::Id::unique("pic.png"));
        }
        _ => panic!(),
    }
    let mut e = LoadState::new_with_string("bad.jpg".to_string());
    let id = e.id();
    e.err_load();
    assert!(matches!(&e, LoadState::LoadErr(t) if t.string == "bad.jpg"));
    assert_eq!(e.id(), id);
    assert!(!e.merge_able(&s));
    assert!(LoadState::default().is_loading());
    let d: LoadEnum<u8, u8> = LoadEnum::default();
    assert_eq!(d, LoadEnum::Str(0));
}

#[test]
fn only_images_and_boxing() {
    let v = vec![
        LoadState::LoadDone(image("a", 1)),
        LoadState::new_with_string("x.png".to_string()),
        LoadState::LoadDone(image("b", 2)),
    ];
    let imgs = only_image(v);
    let n: Vec<&str> = imgs.iter().map(|i| i.name.as_str()).collect();
    assert_eq!(n, vec!["a", "b"]);
    let back = box_load_img_vec(imgs);
    assert_eq!(back.len(), 2);
    assert!(back.iter().all(|s| s.is_loaddone()));
}

#[test]
fn load_groups_split_and_embed() {
    let mut g = GroupAttr { inner: (vec![image("a", 1)], vec![image("b", 2)], vec![]) };
    let rows = <GroupAttr as SplitMergeItem<LoadState>>::split(&mut g);
    assert_eq!(g.len(), 0);
    assert_eq!(rows[0].len(), 1);
    let mut rows = rows;
    rows[1].push(LoadState::new_with_string("t.png".to_string()));
    rows[2].push(LoadState::LoadDone(image("c", 3)));
    let out = <GroupAttr as SplitMergeItem<LoadState>>::embed(&mut g, rows);
    assert_eq!(g.len(), 2);
    assert_eq!(out.len(), 1);
    assert_eq!(IntoContent::name(&out[0]), "c");
    assert_eq!(<GroupAttr as SplitMergeItem<LoadState>>::content_num(&g), 2);
}

#[test]
fn rename_load_rows() {
    let idx = IndexName::new(&"a1b0".to_string()).unwrap();
    let mut rows = [
        vec![LoadState::new_with_string("w.png".to_string()), LoadState::LoadDone(image("p", 1))],
        vec![LoadState::LoadDone(group("g", vec![image("q", 2)], vec![], vec![]))],
        vec![LoadState::LoadDone(image("r", 3))],
    ];
    rename_load_inner(idx, &mut rows);
    assert_eq!(IntoContent::name(&rows[0][0]), "w.png");
    assert_eq!(IntoContent::name(&rows[0][1]), "a");
    assert_eq!(IntoContent::name(&rows[1][0]), "b_g");
    assert_eq!(IntoContent::name(&rows[2][0]), "r");
}

#[test]
fn text_items() {
    let t: LoadingTextItem = TextItemPos::new();
    assert_eq!(t.string.len(), 10);
    let l: LoadingTextItem = TextItemPos::from_str("x".to_string());
    let e: LoadErrTextItem = l.trans2othercolor();
    assert_eq!(e.string, "x");
    let s = random_alphanumeric_string(7);
    assert_eq!(s.len(), 7);
    assert!(s.chars().all(|c| c.is_ascii_alphanumeric()));
    let a: LoadingTextItem = TextItemPos::from_str("ab".to_string());
    let b: LoadingTextItem = TextItemPos::from_str("cd".to_string());
    let m = a.merge(b, &());
    assert_eq!(m.string, "abcd");
    assert_eq!(m.id(), egui::Id::unique("abcd"));
    let mut long: LoadingTextItem = TextItemPos::from_str("abcdefghijk".to_string());
    assert!(!long.is_single());
    assert!(matches!(long.get_content(), Content::Group(s) if s == "abcdefghijk"));
    assert_eq!(long.string, "");
}

#[test]
fn app_plans() {
    let it = RenamePatternState::Iter(IndexName::new(&"a0b1".to_string()).unwrap());
    assert_eq!(sorter_plan(&AppState::Start, &InputState::Verified, false, &it, 0), SorterPlan::Load);
    assert_eq!(sorter_plan(&AppState::Start, &InputState::Active, true, &it, 0), SorterPlan::Stay);
    assert_eq!(sorter_plan(&AppState::Sort, &InputState::Active, true, &it, 9), SorterPlan::Save);
    assert_eq!(sorter_plan(&AppState::Sort, &InputState::Active, true, &it, 10), SorterPlan::TooMany);
    assert_eq!(sorter_plan(&AppState::Sort, &InputState::Verified, false, &it, 3), SorterPlan::Clear);
    assert_eq!(sorter_plan(&AppState::Sort, &InputState::Verified, true, &RenamePatternState::Empty, 3), SorterPlan::Clear);
    assert_eq!(sorter_plan(&AppState::Finish, &InputState::Verified, true, &it, 3), SorterPlan::Clear);
    assert!(AppState::Sort.is_sort());
    assert!(!AppState::Start.is_sort());
}

#[test]
fn app_outcomes() {
    let mut state = AppState::Sort;
    let mut dir = InputState::InActive;
    let mut ren = InputState::WaitingVerify;
    let mut pat = RenamePatternState::Empty;
    let drop = sorter_finish(&SorterPlan::Save, Err("disk full".to_string()), &mut state, &mut dir, &mut ren, &mut pat);
    assert!(!drop);
    assert_eq!(state, AppState::Sort);
    assert_eq!(ren, InputState::InActive);
    assert!(matches!(&pat, RenamePatternState::Failed(m) if m == "save error! disk full"));
    let drop = sorter_finish(&SorterPlan::TooMany, Ok(()), &mut state, &mut dir, &mut ren, &mut pat);
    assert!(!drop);
    assert!(matches!(&pat, RenamePatternState::Failed(m) if m == "beyond max number of input pattern"));
    let drop = sorter_finish(&SorterPlan::Save, Ok(()), &mut state, &mut dir, &mut ren, &mut pat);
    assert!(drop);
    assert_eq!(state, AppState::Finish);
    let mut dir = InputState::Verified;
    let drop = sorter_finish(&SorterPlan::Clear, Ok(()), &mut state, &mut dir, &mut ren, &mut pat);
    assert!(drop);
    assert_eq!(state, AppState::Start);
    let drop = sorter_finish(&SorterPlan::Load, Ok(()), &mut state, &mut dir, &mut ren, &mut pat);
    assert!(!drop);
    assert_eq!(state, AppState::Sort);
    assert_eq!(dir, InputState::InActive);
}

#[test]
fn input_decisions() {
    let mut s = InputState::InActive;
    assert!(!input_button_clicked(&mut s, true));
    assert_eq!(s, InputState::Active);
    assert!(input_button_clicked(&mut s, true));
    let mut w = 5;
    assert!(hint_input_action(&mut s, &mut w, true, true));
    assert_eq!((s, w), (InputState::Verified, 0));
    let mut s = InputState::Active;
    assert!(!hint_input_action(&mut s, &mut w, true, false));
    assert_eq!((s, w), (InputState::InActive, 1));
    let mut s = InputState::Active;
    warning_input_action(&mut s, true, true);
    assert_eq!(s, InputState::WaitingVerify);
    let mut s = InputState::Active;
    warning_input_action(&mut s, true, false);
    assert_eq!(s, InputState::Active);
    assert_eq!(select_after_keys(0, 3, true, false), (1, true, false));
    assert_eq!(select_after_keys(2, 3, true, false), (2, false, false));
    assert_eq!(select_after_keys(0, 3, false, true), (0, false, false));
    assert_eq!(select_after_keys(1, 1, true, true), (1, false, false));
}

#[test]
fn pattern_input() {
    let mut item: InputItem<u8> = InputItem::new_with_id_rect("rename".to_string(), 0);
    let mut pat = RenamePatternState::Empty;
    item.input = "a1b1".to_string();
    item.state = InputState::WaitingVerify;
    rename_input_check(&mut item, &mut pat);
    assert!(pat.is_iter());
    assert_eq!(item.get_cache(), "a1b1");
    assert!(rename_enabled(&InputState::InActive, &pat, &AppState::Sort));
    assert!(!rename_enabled(&InputState::Active, &pat, &AppState::Sort));
    let mut bad: InputItem<u8> = InputItem::new_with_id_rect("rename".to_string(), 0);
    let mut pat2 = RenamePatternState::Empty;
    bad.input = "hello".to_string();
    bad.state = InputState::WaitingVerify;
    rename_input_check(&mut bad, &mut pat2);
    assert_eq!(bad.state, InputState::InActive);
    assert!(matches!(&pat2, RenamePatternState::Failed(m) if m == "producing rename iter failed"));
    let mut st = InputState::InActive;
    assert!(!rename_button_clicked(&mut st, &mut pat, true));
    assert_eq!(st, InputState::Active);
    assert!(matches!(pat, RenamePatternState::Empty));
}

#[test]
fn image_extensions() {
    let list = ["png", "jpeg", "jpg"];
    assert_eq!(image_extension("PNG", &list), Some("png".to_string()));
    assert_eq!(image_extension("Jpg", &list), Some("jpg".to_string()));
    assert_eq!(image_extension("gif", &list), None);
    assert_eq!(image_extension("", &list), None);
}

#[test]
fn pattern_shape() {
    assert!(style_matches("a1b2"));
    assert!(style_matches("a99999999999b1"));
    assert!(!style_matches("ab1"));
    assert!(!style_matches("a1b2c"));
    assert!(!style_matches(""));
}

#[test]
fn text_group_splits_into_ten_byte_pieces() {
    let mut s = String::from("abcdefghijklmnopqrstuvw");
    assert_eq!(SplitMergeItem::<LoadingTextItem>::content_num(&s), 3);
    let rows: [Vec<LoadingTextItem>; 3] = s.split();
    assert_eq!(s, "");
    let texts: Vec<&str> = rows[0].iter().map(|t| t.string.as_str()).collect();
    assert_eq!(texts, vec!["abcdefghij", "klmnopqrst", "uvw"]);
    assert!(rows[1].is_empty() && rows[2].is_empty());
    assert!(rows[0].iter().all(|t| !t.editable));
}

#[test]
fn text_group_splits_multibyte_text_on_boundaries() {
    // two bytes per character: every piece holds five characters
    let mut s = String::from("ééééééééééé");
    let rows: [Vec<LoadingTextItem>; 3] = s.split();
    let texts: Vec<&str> = rows[0].iter().map(|t| t.string.as_str()).collect();
    assert_eq!(texts, vec!["ééééé", "ééééé", "é"]);
}

#[test]
fn text_group_embed_and_back_top() {
    let mut s = String::from("ab");
    let rows: [Vec<LoadingTextItem>; 3] = [
        vec![TextItemPos::from_str("cd".to_string())],
        vec![TextItemPos::from_str("ef".to_string())],
        vec![TextItemPos::from_str("gh".to_string()), TextItemPos::from_str("ij".to_string())],
    ];
    let out = s.embed(rows);
    assert_eq!(s, "abcdef");
    assert_eq!(out.len(), 1);
    assert_eq!(out[0].string, "ghij");
    let mut empty = String::new();
    let none = empty.embed([vec![], vec![], vec![]] as [Vec<LoadingTextItem>; 3]);
    assert!(none.is_empty());
    let mut parent: LoadingTextItem = TextItemPos::from_str("xy".to_string());
    s.back_top(&mut parent);
    assert_eq!(parent.string, "xyabcdef");
    assert!(!<String as SplitMergeItem<LoadingTextItem>>::is_valid(&TextItemPos::from_str(String::new())));
    assert!(<String as SplitMergeItem<LoadingTextItem>>::is_valid(&parent));
}

#[test]
fn text_group_split_then_embed_gives_the_text_back() {
    for text in ["abcdefghijklmnopqrstuvwxyz0123", "ééééééééééé", ""] {
        let mut s = text.to_string();
        let rows: [Vec<LoadingTextItem>; 3] = s.split();
        let out = s.embed(rows);
        assert_eq!(s, text);
        assert!(out.is_empty());
    }
}
