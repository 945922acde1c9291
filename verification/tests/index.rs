use robot_scene::index::NameIndex;

#[test]
fn index_hands_out_identifiers_in_order() {
    let mut index = NameIndex::new();
    assert_eq!(index.len(), 0);
    assert_eq!(index.insert("torso".to_string()), Ok(0));
    assert_eq!(index.insert("head".to_string()), Ok(1));
    assert_eq!(index.insert("".to_string()), Ok(2));
    assert_eq!(index.len(), 3);
    assert_eq!(index.name(1), "head");
    assert_eq!(index.lookup(&"torso".to_string()), Some(0));
    assert_eq!(index.lookup(&"head".to_string()), Some(1));
    assert_eq!(index.lookup(&"".to_string()), Some(2));
    assert_eq!(index.lookup(&"Head".to_string()), None);
}

#[test]
fn index_refuses_a_name_it_holds() {
    let mut index = NameIndex::new();
    assert_eq!(index.insert("a".to_string()), Ok(0));
    assert_eq!(index.insert("b".to_string()), Ok(1));
    assert_eq!(index.insert("a".to_string()), Err(0));
    assert_eq!(index.insert("b".to_string()), Err(1));
    assert_eq!(index.len(), 2);
    assert_eq!(index.insert("c".to_string()), Ok(2));
}

#[test]
fn index_keeps_names_with_equal_hash_apart() {
    let mut index = NameIndex::new();
    let names = ["AaAa", "AaBB", "BBAa", "BBBB", "Aa", "BB"];
    for (i, name) in names.iter().enumerate() {
        assert_eq!(index.insert(name.to_string()), Ok(i));
    }
    for (i, name) in names.iter().enumerate() {
        assert_eq!(index.lookup(&name.to_string()), Some(i));
        assert_eq!(index.insert(name.to_string()), Err(i));
    }
    assert_eq!(index.lookup(&"AaAaAa".to_string()), None);
}

#[test]
fn index_holds_many_names() {
    let mut index = NameIndex::new();
    for i in 0..5000usize {
        assert_eq!(index.insert(format!("link_{}", i)), Ok(i));
    }
    for i in (0..5000usize).step_by(7) {
        assert_eq!(index.lookup(&format!("link_{}", i)), Some(i));
    }
    assert_eq!(index.lookup(&"link_5000".to_string()), None);
}

#[test]
fn index_takes_names_beyond_ascii() {
    let mut index = NameIndex::new();
    assert_eq!(index.insert("Gelenk_\u{e4}".to_string()), Ok(0));
    assert_eq!(index.insert("Gelenk_a".to_string()), Ok(1));
    assert_eq!(index.lookup(&"Gelenk_\u{e4}".to_string()), Some(0));
}
