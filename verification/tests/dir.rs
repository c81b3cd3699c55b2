use image_sorter::dir::{warning_to_show, HintInputState, InputState, WarningShown};

fn listing(names: &[&str]) -> Option<Vec<String>> {
    Some(names.iter().map(|s| s.to_string()).collect())
}

/// The directories of a project checkout: the project root,
/// `test_dir` and `test_dir/dir1`.
fn root_listing() -> Option<Vec<String>> {
    let mut aim = vec![
        "test_dir",
        "target",
        "src",
        "asset",
        ".git",
        "_test_dir1",
        "_test_dir2",
    ];
    aim.sort();
    listing(&aim)
}

fn test_dir_listing() -> Option<Vec<String>> {
    listing(&[
        "dir1", "dir10", "dir11", "dir12", "dir13", "dir2", "dir3", "dir4", "dir5", "dir6", "dir7",
        "dir8", "dir9",
    ])
}

#[test]
fn test_hintdirct() {
    let _state = InputState::default();
    // 空输入传返回当前目录下的情况
    let string = String::new();
    let mut input_state = HintInputState::new();
    input_state.path_cache_refresh(&string);
    input_state.parse_path();
    assert_eq!(string.as_str(), "");
    assert_eq!(input_state.prefix_path.clone(), "./");
    assert_eq!(input_state.flag, true);
    input_state.load_dir_content(root_listing());
    input_state.get_hint();
    assert_eq!(input_state.warning, false);
    let mut aim = vec![
        "test_dir",
        "target",
        "src",
        "asset",
        ".git",
        "_test_dir1",
        "_test_dir2",
    ];
    aim.sort();
    let hint_str = input_state.hint_str();
    for i in &aim {
        assert!(hint_str.contains(&i));
    }
    for i in &hint_str {
        assert!(aim.contains(&i));
    }

    // 当前目录，结果应与上结果相同
    let string = "./".to_string();
    input_state.path_cache_refresh(&string);
    input_state.parse_path();
    assert_eq!(input_state.content(), "");
    assert_eq!(input_state.prefix_path.clone(), "./");
    assert_eq!(input_state.flag, true);
    input_state.load_dir_content(root_listing());
    input_state.get_hint();
    assert_eq!(input_state.warning, false);
    let hint_str = input_state.hint_str();
    for i in &aim {
        assert!(hint_str.contains(&i));
    }
    for i in &hint_str {
        assert!(aim.contains(&i));
    }

    // 当前目录下空头局部匹配
    let string = "test".to_string();
    input_state.path_cache_refresh(&string);
    input_state.parse_path();
    assert_eq!(input_state.content(), "test");
    assert_eq!(input_state.prefix_path.clone(), "./");
    assert_eq!(input_state.flag, true);
    input_state.load_dir_content(root_listing());
    input_state.get_hint();
    assert_eq!(input_state.warning, false);
    assert_eq!(input_state.hint_str(), vec!["test_dir"]);

    // 当前目录头下部分匹配
    let string = "./test".to_string();
    input_state.path_cache_refresh(&string);
    input_state.parse_path();
    assert_eq!(input_state.content(), "test");
    assert_eq!(input_state.prefix_path.clone(), "./");
    assert_eq!(input_state.flag, true);
    input_state.load_dir_content(root_listing());
    input_state.get_hint();
    assert_eq!(input_state.warning, false);
    assert_eq!(input_state.hint_str(), vec!["test_dir"]);

    //空目录头下匹配下一级目录
    let string = "test_dir/".to_string();
    input_state.path_cache_refresh(&string);
    input_state.parse_path();
    assert_eq!(input_state.content(), "");
    assert_eq!(input_state.prefix_path.clone(), "test_dir/");
    assert_eq!(input_state.flag, true);
    input_state.load_dir_content(test_dir_listing());
    input_state.get_hint();
    assert_eq!(input_state.warning, false);
    let vec1 = vec![
        "dir1", "dir2", "dir3", "dir4", "dir5", "dir6", "dir7", "dir8", "dir9", "dir10", "dir11",
        "dir12", "dir13",
    ];
    let hint_str = input_state.hint_str();
    for i in &vec1 {
        assert!(hint_str.contains(&i));
    }
    for i in &hint_str {
        assert!(vec1.contains(&i));
    }

    // 同头下复用之前的结果
    let string = "test_dir/dir".to_string();
    input_state.path_cache_refresh(&string);
    input_state.parse_path();
    assert_eq!(input_state.content(), "dir");
    assert_eq!(input_state.prefix_path.clone(), "test_dir/");
    assert_eq!(input_state.flag, false);
    input_state.get_hint();
    assert_eq!(input_state.warning, false);
    let hint_str = input_state.hint_str();
    assert_eq!(hint_str.len(), vec1.len());
    for i in &vec1 {
        assert!(hint_str.contains(&i));
    }

    //当前目录头下匹配下一级目录
    let string = "./test_dir/".to_string();
    input_state.path_cache_refresh(&string);
    input_state.parse_path();
    assert_eq!(input_state.content(), "");
    assert_eq!(input_state.prefix_path.clone(), "./test_dir/");
    assert_eq!(input_state.flag, true);
    input_state.load_dir_content(test_dir_listing());
    input_state.get_hint();
    assert_eq!(input_state.warning, false);
    let hint_str = input_state.hint_str();
    assert_eq!(hint_str.len(), vec1.len());
    for i in &vec1 {
        assert!(hint_str.contains(&i));
    }

    //当尾部分为 .或者..的时候不提供匹配选项
    let string = "./test_dir/..".to_string();
    input_state.path_cache_refresh(&string);
    input_state.parse_path();
    assert_eq!(input_state.content(), "..");
    assert_eq!(input_state.prefix_path.clone(), "./test_dir/");
    assert_eq!(input_state.flag, false);
    input_state.get_hint();
    assert_eq!(input_state.warning, false);
    assert_eq!(input_state.hint_str(), Vec::<String>::new());

    //多级匹配测试
    let string = "./test_dir/empty".to_string();
    input_state.path_cache_refresh(&string);
    input_state.parse_path();
    assert_eq!(input_state.content(), "empty");
    assert_eq!(input_state.prefix_path.clone(), "./test_dir/");
    assert_eq!(input_state.flag, false);
    input_state.get_hint();
    assert_eq!(input_state.warning, true);
    assert_eq!(input_state.hint_str(), Vec::<String>::new());

    // 多级匹配测试
    let string = "./test_dir/dir1".to_string();
    input_state.path_cache_refresh(&string);
    input_state.parse_path();
    assert_eq!(input_state.content(), "dir1");
    assert_eq!(input_state.prefix_path.clone(), "./test_dir/");
    assert_eq!(input_state.flag, false);
    input_state.get_hint();
    assert_eq!(input_state.warning, false);
    assert_eq!(
        input_state.hint_str(),
        vec!["dir1", "dir10", "dir11", "dir12", "dir13"]
    );

    // 多级匹配测试
    let string = "./test_dir/dir2".to_string();
    input_state.path_cache_refresh(&string);
    input_state.parse_path();
    assert_eq!(input_state.content(), "dir2");
    assert_eq!(input_state.prefix_path.clone(), "./test_dir/");
    assert_eq!(input_state.flag, false);
    input_state.get_hint();
    assert_eq!(input_state.warning, false);
    assert_eq!(input_state.hint_str(), vec!["dir2"]);

    //多级匹配测试
    let string = "./test_dir/dir1/".to_string();
    input_state.path_cache_refresh(&string);
    input_state.parse_path();
    assert_eq!(input_state.content(), "");
    assert_eq!(input_state.prefix_path.clone(), "./test_dir/dir1/");
    assert_eq!(input_state.flag, true);
    input_state.load_dir_content(listing(&["dir2"]));
    input_state.get_hint();
    assert_eq!(input_state.warning, false);
    assert_eq!(input_state.hint_str(), vec!["dir2"]);
}

#[test]
fn unreadable_parent_warns_only_for_a_complete_path() {
    let mut st = HintInputState::new();
    st.path_cache_refresh("nowhere/");
    st.parse_path();
    assert!(st.flag);
    st.load_dir_content(None);
    st.get_hint();
    assert!(st.warning);
    assert!(!st.is_directory(true));
    st.path_cache_refresh("nowhere/x");
    st.parse_path();
    assert!(!st.flag);
    st.get_hint();
    assert!(st.warning);
}

#[test]
fn dot_inputs_parse_to_themselves() {
    let mut st = HintInputState::new();
    st.path_cache_refresh("..");
    st.parse_path();
    assert_eq!(st.prefix_path, "..");
    assert_eq!(st.content_pos, 0);
    assert!(st.flag);
    st.load_dir_content(listing(&["a"]));
    st.get_hint();
    assert!(!st.warning);
    assert!(st.is_directory(true));
    assert!(!st.is_directory(false));
}

#[test]
fn completion_appends_the_rest_of_the_name() {
    let mut st = HintInputState::new();
    let relist = st.parse_and_refresh("./te");
    assert!(relist);
    st.load_dir_content(listing(&["alpha", "test_dir", "tea"]));
    st.get_hint();
    assert_eq!(st.hint_str(), vec!["test_dir", "tea"]);
    assert_eq!(st.hint_str_index(1), "tea");
    assert_eq!(st.completion(0), "st_dir");
    assert_eq!(st.completion(1), "a");
}

#[test]
fn input_states() {
    let s = InputState::default();
    assert!(s.is_active());
    assert!(!s.is_inactive());
    assert!(InputState::WaitingVerify.is_waiting());
    assert!(InputState::Verified.is_verified());
    assert!(InputState::InActive.is_inactive());
}

#[test]
fn outside_warning_comes_before_the_pattern_warning() {
    assert_eq!(warning_to_show(true, true, false), WarningShown::Outside);
    assert_eq!(warning_to_show(true, false, true), WarningShown::Outside);
    assert_eq!(warning_to_show(false, true, false), WarningShown::Pattern);
    assert_eq!(warning_to_show(false, true, true), WarningShown::Nothing);
    assert_eq!(warning_to_show(false, false, false), WarningShown::Nothing);
}
