use image_sorter::idx_name;
use image_sorter::idx_name::{next_vec_char, IndexName, RenamePatternState};

#[test]
fn text_idx_name() {
    let str0 = "a2".to_string();
    let idx_na = idx_name::IndexName::new(&str0);
    assert_eq!(idx_na, None);
    let str1 = "".to_string();
    let idx_na = idx_name::IndexName::new(&str1);
    assert_eq!(idx_na, None);
    let str2 = "ab".to_string();
    assert_eq!(None, idx_name::IndexName::new(&str2));
    let str3 = "a0b1".to_string();
    let idx_na = idx_name::IndexName::new(&str3);
    assert_eq!(
        idx_na,
        Some(idx_name::IndexName {
            style: (0, 9, 1),
            max_size: (10),
            now_num: 0,
            current_index: (vec![], 0)
        })
    );
    let mut idx_na = idx_na.unwrap();
    let idx_na_point = &mut idx_na;
    for i in 0..10 {
        assert_eq!(Some(format!("{}", i)), idx_na_point.next());
    }
    assert_eq!(None, idx_na_point.next());
    let str3 = "a1b0".to_string();
    let idx_na = idx_name::IndexName::new(&str3);
    assert_eq!(
        idx_na,
        Some(idx_name::IndexName {
            style: (1, 0, 0),
            max_size: (26),
            now_num: 0,
            current_index: (vec!['a'], 0)
        })
    );
    let mut idx_na = idx_na.unwrap();
    let idx_na_point = &mut idx_na;
    assert_eq!(Some("a".to_string()), idx_na_point.next());
    assert_eq!(Some("b".to_string()), idx_na_point.next());
    assert_eq!(Some("c".to_string()), idx_na_point.next());
    for _ in 0..22 {
        idx_na_point.next();
    }
    assert_eq!(Some("z".to_string()), idx_na_point.next());
    assert_eq!(None, idx_na_point.next());
    let str3 = "a1b2".to_string();
    let idx_na = idx_name::IndexName::new(&str3);
    assert_eq!(
        idx_na,
        Some(idx_name::IndexName {
            style: (1, 99, 2),
            max_size: 26 * 100,
            now_num: 0,
            current_index: (vec!['a'], 0),
        })
    );
    let mut idx_na = idx_na.unwrap();
    let idx_na_point = &mut idx_na;
    assert_eq!(Some("a00".to_string()), idx_na_point.next());
    assert_eq!(Some("a01".to_string()), idx_na_point.next());
    for _i in 2..(idx_na_point.max_size - 1) {
        idx_na_point.next();
    }
    assert_eq!(Some("z99".to_string()), idx_na_point.next());
    assert_eq!(idx_na_point.now_num, idx_na_point.max_size);
    assert_eq!(idx_na_point.next(), None);

    let str4 = "a2b1".to_string();
    let idx_na = idx_name::IndexName::new(&str4);
    assert_eq!(
        idx_na,
        Some(idx_name::IndexName {
            style: (2, 9, 1),
            max_size: 26 * 26 * 10,
            now_num: 0,
            current_index: (vec!['a', 'a'], 0),
        })
    );
    let mut idx_na = idx_na.unwrap();
    let idx_na_point = &mut idx_na;
    assert_eq!(Some("aa0".to_string()), idx_na_point.next());
    assert_eq!(Some("aa1".to_string()), idx_na_point.next());
    for _i in 2..(idx_na_point.max_size - 1) {
        idx_na_point.next();
    }
    assert_eq!(Some("zz9".to_string()), idx_na_point.next());
    assert_eq!(idx_na_point.now_num, idx_na_point.max_size);
    assert_eq!(idx_na_point.next(), None);
}

#[test]
fn style_with_unicode_or_signs_is_refused() {
    // `\d` of the regex also matches non-ASCII digits, which do not parse.
    assert_eq!(IndexName::new(&"a١b1".to_string()), None);
    assert_eq!(IndexName::new(&"a+1b1".to_string()), None);
    assert_eq!(IndexName::new(&"xa1b1".to_string()), None);
    assert_eq!(IndexName::new(&"a1b1\n".to_string()), None);
    assert_eq!(IndexName::new(&"a99999999999b1".to_string()), None);
}

#[test]
fn leading_zeros_in_style_are_read_as_numbers() {
    let it = IndexName::new(&"a01b002".to_string()).unwrap();
    assert_eq!(it.style, (1, 99, 2));
    assert_eq!(it.max_size, 2600);
}

#[test]
fn style_range_check() {
    assert!(idx_name::style_is_in_range(&"a1b2".to_string()));
    assert!(idx_name::style_is_in_range(&"not a style".to_string()));
    // 26^6 * 10 = 3_089_157_760 still fits, 26^7 does not.
    assert!(idx_name::style_is_in_range(&"a6b1".to_string()));
    assert!(!idx_name::style_is_in_range(&"a7b0".to_string()));
    assert!(!idx_name::style_is_in_range(&"a0b10".to_string()));
    assert!(idx_name::style_is_in_range(&"a0b9".to_string()));
}

#[test]
fn names_in_a_wide_style_are_distinct() {
    let mut it = IndexName::new(&"a2b1".to_string()).unwrap();
    let mut seen = std::collections::HashSet::new();
    while let Some(name) = it.next() {
        assert_eq!(name.len(), 3);
        assert!(seen.insert(name));
    }
    assert_eq!(seen.len(), 26 * 26 * 10);
}

#[test]
fn next_vec_char_carries() {
    let mut v = vec!['a', 'z', 'z'];
    next_vec_char(&mut v);
    assert_eq!(v, vec!['b', 'a', 'a']);
    let mut v = vec!['z', 'z'];
    next_vec_char(&mut v);
    assert_eq!(v, vec!['a', 'a']);
    let mut v: Vec<char> = vec![];
    next_vec_char(&mut v);
    assert!(v.is_empty());
    let mut v = vec!['q'];
    next_vec_char(&mut v);
    assert_eq!(v, vec!['r']);
}

#[test]
fn next_on_a_finished_sequence_changes_nothing() {
    let mut it = IndexName::new(&"a0b1".to_string()).unwrap();
    for _ in 0..10 {
        it.next();
    }
    assert_eq!(it.next(), None);
    assert_eq!(it.now_num, 10);
}

#[test]
fn rename_pattern_state_defaults_to_empty() {
    let s = RenamePatternState::default();
    assert!(!s.is_iter());
    assert!(matches!(s, RenamePatternState::Empty));
    let it = RenamePatternState::Iter(IndexName::new(&"a1b1".to_string()).unwrap());
    assert!(it.is_iter());
    assert!(!RenamePatternState::Failed("x".to_string()).is_iter());
}

#[test]
fn names_come_in_string_order_with_fixed_length() {
    let mut it = IndexName::new(&"a2b1".to_string()).unwrap();
    let mut names = Vec::new();
    while let Some(n) = it.next() {
        names.push(n);
    }
    assert_eq!(names.len(), 26 * 26 * 10);
    assert_eq!(names[0], "aa0");
    assert_eq!(names[10], "ab0");
    assert_eq!(names[26 * 10], "ba0");
    assert_eq!(names.last().unwrap(), "zz9");
    assert!(names.iter().all(|n| n.chars().count() == 3));
    assert!(names.windows(2).all(|w| w[0] < w[1]));
    assert_eq!(it.next(), None);
}

#[test]
fn letters_only_style_counts_in_base_26() {
    let mut it = IndexName::new(&"a1b0".to_string()).unwrap();
    let names: Vec<String> = std::iter::from_fn(|| it.next()).collect();
    assert_eq!(names.len(), 26);
    assert_eq!(names[0], "a");
    assert_eq!(names[25], "z");
}
