use image_sorter::idx_name::IndexName;
use image_sorter::image_item::{GroupAttr, ImageItem};
use image_sorter::main_struct::MainStruct;
use image_sorter::mix_item::{LoadEnum, LoadState};
use image_sorter::related_struct::{Event, Position};
use image_sorter::self_trait::{Content, IntoContent, PosItem};

fn tex(n: u64) -> egui::TextureId {
    egui::TextureId::Managed(n)
}

fn image(name: &str, n: u64) -> ImageItem {
    ImageItem::from_texture_parts(tex(n), tex(n + 1000), name.to_string(), [4, 3])
}

fn group(name: &str, r0: Vec<ImageItem>, r1: Vec<ImageItem>, r2: Vec<ImageItem>) -> ImageItem {
    let mut g = ImageItem::default();
    g.name = name.to_string();
    g.attr = Content::Group(GroupAttr { inner: (r0, r1, r2) });
    g.update_id();
    g
}

fn names(row: &Vec<LoadState>) -> Vec<String> {
    row.iter()
        .map(|x| match x {
            LoadState::LoadDone(img) => img.name.clone(),
            LoadState::Loading(t) => format!("loading:{}", t.string),
            LoadState::LoadErr(t) => format!("err:{}", t.string),
        })
        .collect()
}

fn group_rows(x: &LoadState) -> (Vec<String>, Vec<String>, Vec<String>) {
    match x {
        LoadState::LoadDone(img) => match &img.attr {
            Content::Group(g) => (
                g.inner.0.iter().map(|i| i.name.clone()).collect(),
                g.inner.1.iter().map(|i| i.name.clone()).collect(),
                g.inner.2.iter().map(|i| i.name.clone()).collect(),
            ),
            Content::Single(_) => panic!("not a group"),
        },
        _ => panic!("not loaded"),
    }
}

fn loaded_main(files: &[&str]) -> MainStruct {
    let mut m = MainStruct::new_with_asset(tex(1));
    m.load_figure(files.iter().map(|f| (f.to_string(), String::new())).collect());
    for (k, f) in files.iter().enumerate() {
        assert!(m.find_loading_and_load_image(f.to_string(), tex(10 + k as u64), tex(100 + k as u64), [8, 8]));
    }
    m
}

#[test]
fn loading_items_become_images_once() {
    let mut m = MainStruct::new_with_asset(tex(1));
    assert_eq!(m.unrename_name, "Unrename Panel");
    m.load_figure(vec![
        ("a.png".to_string(), "png".to_string()),
        ("b.tar.jpg".to_string(), "jpg".to_string()),
    ]);
    assert_eq!(names(&m.data_list[0]), vec!["loading:a.png", "loading:b.tar.jpg"]);
    assert!(m.find_loading_and_load_image("b.tar.jpg".to_string(), tex(7), tex(8), [2, 3]));
    assert_eq!(names(&m.data_list[0]), vec!["loading:a.png", "b.tar.jpg"]);
    // the extension is what follows the last dot
    assert_eq!(m.proof_hash.len(), 2);
    assert_eq!(m.proof_hash[1].0, tex(7));
    assert_eq!(
        m.proof_hash[1].1,
        LoadEnum::Img(("b.tar.jpg".to_string(), "jpg".to_string()))
    );
    // a loaded image does not load twice
    assert!(!m.find_loading_and_load_image("b.tar.jpg".to_string(), tex(9), tex(10), [2, 3]));
    assert_eq!(m.proof_hash.len(), 2);
    // an unknown name changes nothing
    assert!(!m.find_loading_and_load_image("c.png".to_string(), tex(11), tex(12), [2, 3]));
    // so does a name without a dot that no item is loading
    assert!(!m.find_loading_and_load_image("noext".to_string(), tex(13), tex(14), [2, 3]));
    assert_eq!(m.proof_hash.len(), 2);
    assert!(m.find_loading_and_err("a.png".to_string()));
    assert_eq!(names(&m.data_list[0]), vec!["err:a.png", "b.tar.jpg"]);
    assert!(!m.find_loading_and_err("a.png".to_string()));
}

#[test]
fn same_texture_is_kept_once() {
    let mut m = MainStruct::new_with_asset(tex(1));
    m.load_figure(vec![("a.png".to_string(), String::new()), ("b.png".to_string(), String::new())]);
    assert!(m.find_loading_and_load_image("a.png".to_string(), tex(5), tex(6), [1, 1]));
    assert!(m.find_loading_and_load_image("b.png".to_string(), tex(5), tex(6), [1, 1]));
    assert_eq!(m.proof_hash.len(), 2);
    assert_eq!(
        m.proof_hash[1].1,
        LoadEnum::Img(("a.png".to_string(), "png".to_string()))
    );
}

#[test]
fn all_clear_keeps_only_the_directory_icon() {
    let mut m = loaded_main(&["a.png", "b.png"]);
    m.data_list[1].push(LoadState::LoadDone(image("c", 50)));
    m.all_clear();
    assert!(m.data_list.iter().all(|r| r.is_empty()));
    assert!(m.info_stack.is_empty());
    assert_eq!(m.proof_hash.len(), 1);
    assert_eq!(m.proof_hash[0].0, tex(1));
}

#[test]
fn max_len_counts_images_and_groups() {
    let mut m = MainStruct::new_with_empty();
    m.data_list[0].push(LoadState::LoadDone(image("a", 1)));
    m.data_list[0].push(LoadState::new_with_string("wait.png".to_string()));
    m.data_list[1].push(LoadState::LoadDone(image("b", 2)));
    assert_eq!(m.max_len(), 2);
    let big = group(
        "g",
        vec![image("c", 3), image("d", 4), image("e", 5)],
        vec![image("f", 6)],
        vec![],
    );
    m.data_list[1].push(LoadState::LoadDone(big));
    // the group has four images; the panels hold three loaded items
    assert_eq!(m.max_len(), 4);
    // the third panel of the bottom layer is not saved
    for k in 0..6 {
        m.data_list[2].push(LoadState::LoadDone(image("z", 100 + k)));
    }
    assert_eq!(m.max_len(), 4);
}

#[test]
fn open_and_close_a_group() {
    let mut m = MainStruct::new_with_asset(tex(1));
    m.data_list[0].push(LoadState::LoadDone(image("a", 1)));
    m.data_list[0].push(LoadState::LoadDone(group(
        "grp",
        vec![image("c", 3), image("d", 4)],
        vec![image("e", 5)],
        vec![image("f", 6)],
    )));
    m.data_list[1].push(LoadState::LoadDone(image("b", 2)));
    let (show, _) = m.event_process(Event::Sclicked((0, 1)));
    assert_eq!(show, Some((0, 1)));
    m.event_process(Event::Dclicked((0, 1)));
    assert_eq!(m.info_stack.len(), 1);
    assert_eq!(m.unrename_name, "Out grp Panel");
    assert_eq!(names(&m.data_list[0]), vec!["c", "d"]);
    assert_eq!(names(&m.data_list[1]), vec!["e"]);
    assert_eq!(names(&m.data_list[2]), vec!["f"]);
    // inside the group: two images in the main panel, plus the one of the
    // third panel that goes back to the assist panel below
    assert_eq!(m.max_len(), 4);
    let (_, removed) = m.event_process(Event::Back);
    assert_eq!(removed, None);
    assert!(m.info_stack.is_empty());
    assert_eq!(m.unrename_name, "Unrename Panel");
    assert_eq!(names(&m.data_list[0]), vec!["a", "grp"]);
    assert_eq!(names(&m.data_list[1]), vec!["b", "f"]);
    assert_eq!(group_rows(&m.data_list[0][1]), (vec!["c".to_string(), "d".to_string()], vec!["e".to_string()], vec![]));
    // a second Back on the bottom layer does nothing
    let (_, removed) = m.event_process(Event::Back);
    assert_eq!(removed, None);
    assert_eq!(names(&m.data_list[0]), vec!["a", "grp"]);
}

#[test]
fn a_group_emptied_inside_is_taken_out() {
    let mut m = MainStruct::new_with_asset(tex(1));
    m.data_list[0].push(LoadState::LoadDone(group("grp", vec![image("c", 3)], vec![], vec![])));
    m.data_list[0].push(LoadState::LoadDone(image("a", 1)));
    let gid = egui::Id::unique("grp");
    m.inner_with_pos((0, 0));
    // drag the only image into the third panel
    let r = m.drop_item(0, 0, 2, 0, Position::Behind, egui::Rect::ZERO);
    assert_eq!(r, None);
    assert!(m.data_list[0].is_empty());
    assert_eq!(names(&m.data_list[2]), vec!["c"]);
    let (pos, removed) = m.pop_top_layer();
    assert_eq!(pos, Some((0, 0)));
    assert_eq!(removed, Some(gid));
    assert_eq!(names(&m.data_list[0]), vec!["a"]);
    assert_eq!(names(&m.data_list[1]), vec!["c"]);
}

#[test]
fn back_first_layer_closes_every_layer() {
    let mut m = MainStruct::new_with_asset(tex(1));
    let inner = group("inner", vec![image("x", 7)], vec![], vec![image("y", 8)]);
    m.data_list[1].push(LoadState::LoadDone(group("outer", vec![inner], vec![], vec![])));
    m.inner_with_pos((1, 0));
    m.inner_with_pos((0, 0));
    assert_eq!(m.info_stack.len(), 2);
    assert_eq!(m.unrename_name, "Out inner Panel");
    let before = m.max_len();
    let path = m.back_first_layer();
    assert_eq!(path, vec![(0, 0), (1, 0)]);
    assert!(m.info_stack.is_empty());
    assert!(m.max_len() <= before);
    assert_eq!(m.unrename_name, "Unrename Panel");
    assert_eq!(names(&m.data_list[1]), vec!["outer"]);
    // y came back to the assist panel of the outer group
    assert_eq!(group_rows(&m.data_list[1][0]), (vec!["inner".to_string()], vec!["y".to_string()], vec![]));
}

#[test]
fn drop_within_a_panel_merges_images() {
    let mut m = MainStruct::new_with_asset(tex(1));
    m.data_list[0].push(LoadState::LoadDone(image("a", 1)));
    m.data_list[0].push(LoadState::LoadDone(image("b", 2)));
    m.data_list[0].push(LoadState::new_with_string("wait.png".to_string()));
    let ida = egui::Id::unique("a");
    let idb = egui::Id::unique("b");
    let r = m.drop_item(0, 0, 0, 1, Position::Middle, egui::Rect::ZERO);
    assert_eq!(r, Some((ida, idb)));
    assert_eq!(m.data_list[0].len(), 2);
    let (r0, _, _) = group_rows(&m.data_list[0][0]);
    assert_eq!(r0, vec!["b".to_string(), "a".to_string()]);
    // a loading item does not merge: it is moved instead
    let r = m.drop_item(0, 1, 0, 0, Position::Middle, egui::Rect::ZERO);
    assert_eq!(r, None);
    assert_eq!(names(&m.data_list[0])[0], "loading:wait.png");
}

#[test]
fn save_lists_the_copies_under_new_names() {
    let mut m = loaded_main(&["x.png", "y.jpg", "z.png"]);
    // move z into a group with y
    let r = m.drop_item(0, 2, 0, 1, Position::Middle, egui::Rect::ZERO);
    assert!(r.is_some());
    let group_name = IntoContent::name(&m.data_list[0][1]).to_string();
    let idx = IndexName::new(&"a0b1".to_string()).unwrap();
    let n = m.max_len();
    assert!(n < idx.max_size as usize);
    let (copies, failure) = m.save_plan("/p", "out", idx);
    assert_eq!(failure, None);
    let gname = format!("1_{}", group_name);
    assert_eq!(
        copies,
        vec![
            ("/p/x.png".to_string(), "/p/out/0.png".to_string()),
            ("/p/y.jpg".to_string(), format!("/p/out/{}_0.jpg", gname)),
            ("/p/z.png".to_string(), format!("/p/out/{}_1.png", gname)),
        ]
    );
    assert_eq!(names(&m.data_list[0]), vec!["0".to_string(), gname]);
}

#[test]
fn save_stops_at_an_image_without_its_file() {
    let mut m = MainStruct::new_with_asset(tex(1));
    m.data_list[0].push(LoadState::LoadDone(image("lost", 9)));
    m.data_list[0].push(LoadState::LoadDone(image("other", 11)));
    let idx = IndexName::new(&"a1b0".to_string()).unwrap();
    let (copies, failure) = m.save_plan("/p", "q", idx);
    assert!(copies.is_empty());
    assert_eq!(failure, Some("can not find saved data for: Managed(9)".to_string()));
}

#[test]
fn texts_are_not_renamed_or_saved() {
    let mut m = loaded_main(&["x.png"]);
    m.data_list[0].insert(0, LoadState::new_with_string("wait.png".to_string()));
    let idx = IndexName::new(&"a1b0".to_string()).unwrap();
    let (copies, failure) = m.save_plan("d", "n", idx);
    assert_eq!(failure, None);
    assert_eq!(copies, vec![("d/x.png".to_string(), "d/n/a.png".to_string())]);
    assert_eq!(names(&m.data_list[0]), vec!["loading:wait.png", "a"]);
}

#[test]
fn not_done_clear_keeps_images_in_order() {
    let mut m = loaded_main(&["a.png", "b.png"]);
    m.data_list[0].insert(1, LoadState::new_with_string("wait.png".to_string()));
    m.data_list[0].push(LoadState::new_with_string("late.png".to_string()));
    assert!(m.find_loading_and_err("late.png".to_string()));
    let places: Vec<egui::Rect> = (0..4)
        .map(|k| egui::Rect::from_min_size(egui::pos2(k as f32 * 10.0, 0.0), egui::vec2(5.0, 5.0)))
        .collect();
    for (k, item) in m.data_list[0].iter_mut().enumerate() {
        item.update_item_rect(places[k]);
    }
    m.not_done_clear();
    assert_eq!(names(&m.data_list[0]), vec!["a.png", "b.png"]);
    assert_eq!(m.data_list[0][0].item_rect(), places[0]);
    assert_eq!(m.data_list[0][1].item_rect(), places[1]);
}
