use gemstone::{InvalidChar, Module, ModuleManager, Preprocessor, PunctuationKind, ReservedKind, Span};

fn preprocessor(srcs: &[&str]) -> Preprocessor {
    let modules = srcs
        .iter()
        .enumerate()
        .map(|(i, s)| Module { src: s.to_string(), path: format!("m{i}") })
        .collect();
    Preprocessor::new(ModuleManager::with_modules(modules))
}

#[test]
fn comments_are_stripped() {
    let mut p = preprocessor(&["a // note\nb", "// all\n", "x / y //"]);
    p.strip_comments();
    let modules = p.module_manager.get_ref();
    assert_eq!(modules[0].src, "a \nb");
    assert_eq!(modules[1].src, "\n");
    assert_eq!(modules[2].src, "x / y ");
    assert_eq!(modules[2].path, "m2");
}

#[test]
fn tabs_are_expanded() {
    let mut p = preprocessor(&["\tx\t"]);
    p.strip_comments();
    assert_eq!(p.module_manager.get_ref()[0].src, "    x    ");
}

#[test]
fn valid_characters_pass() {
    let p = preprocessor(&["point :: struct { x :: s32 } // (a+b)*c; !?&|^~%<>=.[]\n\t"]);
    assert_eq!(p.detect_nonvalid_chars(), Ok(()));
}

#[test]
fn invalid_character_is_reported() {
    let p = preprocessor(&["a b", "x\n  y_z", "@"]);
    assert_eq!(
        p.detect_nonvalid_chars(),
        Err(InvalidChar { module: 1, span: Span::new_with(2, 4), ch: '_' })
    );
}

#[test]
fn modules_can_be_taken_and_changed() {
    let mut manager = ModuleManager::with_modules(vec![Module { src: "a".to_string(), path: "p".to_string() }]);
    manager.get_mut_ref()[0].src.push('b');
    assert_eq!(manager.get_ref()[0].src, "ab");
    let taken = manager.take_modules();
    assert_eq!(taken.len(), 1);
    assert!(manager.get_ref().is_empty());
}

#[test]
fn span_moves() {
    let mut s = Span::new();
    s.incre_col_num();
    s.incre_col_num_by(3);
    assert_eq!(s, Span::new_with(1, 5));
    s.incre_line_num();
    s.incre_line_num_by(2);
    assert_eq!(s, Span::new_with(4, 5));
    s.decre_line_num();
    s.decre_col_num();
    assert_eq!(s, Span::new_with(3, 4));
    s.incre_from_char('\t');
    assert_eq!(s, Span::new_with(3, 8));
    s.incre_from_char('a');
    assert_eq!(s, Span::new_with(3, 9));
    s.incre_from_char('\n');
    assert_eq!(s, Span::new_with(4, 1));
    s.incre_col_num();
    s.reset_col_num();
    assert_eq!(s, Span::new_with(4, 1));
}

#[test]
fn character_tables() {
    assert_eq!(PunctuationKind::from_char('{'), PunctuationKind::OpenBrace);
    assert_eq!(PunctuationKind::from_char('.'), PunctuationKind::Dot);
    assert_eq!(ReservedKind::from_word(&"main".chars().collect()), Some(ReservedKind::Main));
    assert_eq!(ReservedKind::from_word(&"mains".chars().collect()), None);
}

#[test]
fn span_near_the_largest_column() {
    let mut s = Span::new_with(1, usize::MAX - 1);
    s.incre_from_char('a');
    assert_eq!(s, Span::new_with(1, usize::MAX));
    s.incre_from_char('\n');
    assert_eq!(s, Span::new_with(2, 1));
}
