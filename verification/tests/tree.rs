use robot_scene::description::JointDescriptor;
use robot_scene::description::LinkDescriptor;
use robot_scene::error::Error;
use robot_scene::frame::Origin;
use robot_scene::joint::JointKind;
use robot_scene::scalar::Vec3;
use robot_scene::tree::build;
use robot_scene::tree::Edge;

fn link(name: &str) -> LinkDescriptor {
    LinkDescriptor { name: name.to_string(), inertial: None, collisions: vec![], visuals: vec![] }
}

fn joint(name: &str, parent: &str, child: &str) -> JointDescriptor {
    JointDescriptor {
        name: name.to_string(),
        kind: JointKind::Fixed,
        parent: parent.to_string(),
        child: child.to_string(),
        origin: Origin { xyz: Vec3::from_bits(0, 0, 0), rpy: Vec3::from_bits(0, 0, 0) },
        axis: None,
    }
}

#[test]
fn build_empty_description() {
    let skeleton = build(&vec![], &vec![]).unwrap();
    assert_eq!(skeleton.node_count(), 0);
    assert_eq!(skeleton.joint_count(), 0);
    assert!(skeleton.roots.is_empty());
}

#[test]
fn build_chain_gives_one_tree() {
    let links = vec![link("base"), link("arm"), link("hand")];
    let joints = vec![joint("shoulder", "base", "arm"), joint("wrist", "arm", "hand")];
    let skeleton = build(&links, &joints).unwrap();
    assert_eq!(skeleton.node_count(), 3);
    assert_eq!(skeleton.joint_count(), 2);
    assert_eq!(skeleton.roots, vec![0]);
    assert_eq!(skeleton.edges, vec![Edge { parent: 0, child: 1 }, Edge { parent: 1, child: 2 }]);
    assert_eq!(skeleton.parent_joint, vec![None, Some(0), Some(1)]);
    assert_eq!(skeleton.children, vec![vec![1], vec![2], vec![]]);
    assert_eq!(skeleton.parent_of(0), None);
    assert_eq!(skeleton.parent_of(1), Some(0));
    assert_eq!(skeleton.parent_of(2), Some(1));
    assert_eq!(skeleton.root_of(2), 0);
    assert_eq!(skeleton.root_of(0), 0);
    assert_eq!(skeleton.id_of(&"hand".to_string()), Some(2));
    assert_eq!(skeleton.id_of(&"foot".to_string()), None);
}

#[test]
fn build_node_count_equals_link_count() {
    let mut links = Vec::new();
    let mut joints = Vec::new();
    for i in 0..50 {
        links.push(link(&format!("link{}", i)));
    }
    for i in 1..50 {
        joints.push(joint(&format!("joint{}", i), &format!("link{}", (i - 1) / 2), &format!("link{}", i)));
    }
    let skeleton = build(&links, &joints).unwrap();
    assert_eq!(skeleton.node_count(), links.len());
    assert_eq!(skeleton.roots, vec![0]);
    let mut seen = 0;
    for v in 0..50 {
        seen += skeleton.children[v].len();
        assert_eq!(skeleton.root_of(v), 0);
    }
    assert_eq!(seen, 49);
    assert_eq!(skeleton.children[0], vec![1, 2]);
    assert_eq!(skeleton.children[3], vec![7, 8]);
}

#[test]
fn build_joints_in_any_order() {
    let links = vec![link("hand"), link("base"), link("arm")];
    let joints = vec![joint("wrist", "arm", "hand"), joint("shoulder", "base", "arm")];
    let skeleton = build(&links, &joints).unwrap();
    assert_eq!(skeleton.roots, vec![1]);
    assert_eq!(skeleton.parent_of(0), Some(2));
    assert_eq!(skeleton.parent_of(2), Some(1));
    assert_eq!(skeleton.root_of(0), 1);
}

#[test]
fn build_roots_in_insertion_order() {
    let links = vec![link("zebra"), link("mango"), link("apple"), link("leaf")];
    let joints = vec![joint("stem", "apple", "leaf")];
    let skeleton = build(&links, &joints).unwrap();
    assert_eq!(skeleton.roots, vec![0, 1, 2]);
    assert_eq!(skeleton.root_of(3), 2);
}

#[test]
fn build_children_in_joint_order() {
    let links = vec![link("a"), link("b"), link("c"), link("d")];
    let joints = vec![joint("j1", "a", "d"), joint("j2", "a", "b"), joint("j3", "a", "c")];
    let skeleton = build(&links, &joints).unwrap();
    assert_eq!(skeleton.children[0], vec![3, 1, 2]);
}

#[test]
fn build_duplicate_at_the_front() {
    let links = vec![link("a"), link("a"), link("b"), link("c")];
    assert_eq!(build(&links, &vec![]).unwrap_err(), Error::DuplicateLink("a".to_string()));
}

#[test]
fn build_duplicate_in_the_middle() {
    let links = vec![link("a"), link("b"), link("c"), link("b"), link("d")];
    assert_eq!(build(&links, &vec![]).unwrap_err(), Error::DuplicateLink("b".to_string()));
}

#[test]
fn build_duplicate_at_the_end() {
    let links = vec![link("a"), link("b"), link("c"), link("a")];
    assert_eq!(build(&links, &vec![]).unwrap_err(), Error::DuplicateLink("a".to_string()));
}

#[test]
fn build_reports_the_first_repeated_name() {
    let links = vec![link("a"), link("b"), link("b"), link("a")];
    assert_eq!(build(&links, &vec![]).unwrap_err(), Error::DuplicateLink("b".to_string()));
}

#[test]
fn build_names_with_equal_hash_are_not_duplicates() {
    let links = vec![link("Aa"), link("BB"), link("AaAa"), link("BBBB"), link("AaBB")];
    let joints = vec![joint("j", "BB", "AaBB")];
    let skeleton = build(&links, &joints).unwrap();
    assert_eq!(skeleton.node_count(), 5);
    assert_eq!(skeleton.id_of(&"Aa".to_string()), Some(0));
    assert_eq!(skeleton.id_of(&"BB".to_string()), Some(1));
    assert_eq!(skeleton.id_of(&"BBBB".to_string()), Some(3));
    assert_eq!(skeleton.id_of(&"AaBB".to_string()), Some(4));
    assert_eq!(skeleton.id_of(&"BBAa".to_string()), None);
    assert_eq!(skeleton.edges, vec![Edge { parent: 1, child: 4 }]);
}

#[test]
fn build_unknown_parent() {
    let links = vec![link("a"), link("b")];
    let joints = vec![joint("j1", "a", "b"), joint("j2", "ghost", "a")];
    assert_eq!(
        build(&links, &joints).unwrap_err(),
        Error::UnknownLinkReference { joint: "j2".to_string(), link: "ghost".to_string() }
    );
}

#[test]
fn build_unknown_child() {
    let links = vec![link("a"), link("b")];
    let joints = vec![joint("j1", "a", "nowhere")];
    assert_eq!(
        build(&links, &joints).unwrap_err(),
        Error::UnknownLinkReference { joint: "j1".to_string(), link: "nowhere".to_string() }
    );
}

#[test]
fn build_unknown_parent_before_unknown_child() {
    let links = vec![link("a")];
    let joints = vec![joint("j1", "p", "c")];
    assert_eq!(
        build(&links, &joints).unwrap_err(),
        Error::UnknownLinkReference { joint: "j1".to_string(), link: "p".to_string() }
    );
}

#[test]
fn build_names_the_first_dangling_joint() {
    let links = vec![link("a"), link("b")];
    let joints = vec![joint("j1", "a", "b"), joint("j2", "a", "x"), joint("j3", "y", "b")];
    assert_eq!(
        build(&links, &joints).unwrap_err(),
        Error::UnknownLinkReference { joint: "j2".to_string(), link: "x".to_string() }
    );
}

#[test]
fn build_multiple_parents() {
    let links = vec![link("a"), link("b"), link("c")];
    let joints = vec![joint("j1", "a", "c"), joint("j2", "b", "c")];
    assert_eq!(build(&links, &joints).unwrap_err(), Error::MultipleParents("c".to_string()));
}

#[test]
fn build_same_joint_twice_is_multiple_parents() {
    let links = vec![link("a"), link("b")];
    let joints = vec![joint("j1", "a", "b"), joint("j2", "a", "b")];
    assert_eq!(build(&links, &joints).unwrap_err(), Error::MultipleParents("b".to_string()));
}

#[test]
fn build_three_joint_cycle() {
    let links = vec![link("A"), link("B"), link("C")];
    let joints = vec![joint("ab", "A", "B"), joint("bc", "B", "C"), joint("ca", "C", "A")];
    assert_eq!(build(&links, &joints).unwrap_err(), Error::CyclicKinematics);
}

#[test]
fn build_three_joint_cycle_in_any_joint_order() {
    let links = vec![link("C"), link("A"), link("B")];
    let joints = vec![joint("ca", "C", "A"), joint("ab", "A", "B"), joint("bc", "B", "C")];
    assert_eq!(build(&links, &joints).unwrap_err(), Error::CyclicKinematics);
    let joints = vec![joint("bc", "B", "C"), joint("ab", "A", "B"), joint("ca", "C", "A")];
    assert_eq!(build(&links, &joints).unwrap_err(), Error::CyclicKinematics);
}

#[test]
fn build_self_loop_is_a_cycle() {
    let links = vec![link("a")];
    let joints = vec![joint("j", "a", "a")];
    assert_eq!(build(&links, &joints).unwrap_err(), Error::CyclicKinematics);
}

#[test]
fn build_cycle_beside_a_tree() {
    let links = vec![link("r"), link("x"), link("p"), link("q")];
    let joints = vec![joint("rx", "r", "x"), joint("pq", "p", "q"), joint("qp", "q", "p")];
    assert_eq!(build(&links, &joints).unwrap_err(), Error::CyclicKinematics);
}

#[test]
fn build_duplicate_comes_before_every_other_fault() {
    let links = vec![link("a"), link("a")];
    let joints = vec![joint("j1", "a", "ghost"), joint("j2", "a", "a")];
    assert_eq!(build(&links, &joints).unwrap_err(), Error::DuplicateLink("a".to_string()));
}

#[test]
fn build_dangling_comes_before_multiple_parents_and_cycle() {
    let links = vec![link("a"), link("b")];
    let joints =
        vec![joint("j1", "a", "b"), joint("j2", "b", "a"), joint("j3", "a", "b"), joint("j4", "a", "x")];
    assert_eq!(
        build(&links, &joints).unwrap_err(),
        Error::UnknownLinkReference { joint: "j4".to_string(), link: "x".to_string() }
    );
}

#[test]
fn build_multiple_parents_comes_before_cycle() {
    let links = vec![link("a"), link("b"), link("c")];
    let joints = vec![joint("j1", "a", "b"), joint("j2", "b", "a"), joint("j3", "c", "b")];
    assert_eq!(build(&links, &joints).unwrap_err(), Error::MultipleParents("b".to_string()));
}

#[test]
fn build_deep_chain() {
    let n = 2000;
    let mut links = Vec::new();
    let mut joints = Vec::new();
    for i in 0..n {
        links.push(link(&format!("l{}", i)));
    }
    for i in (1..n).rev() {
        joints.push(joint(&format!("j{}", i), &format!("l{}", i), &format!("l{}", i - 1)));
    }
    let skeleton = build(&links, &joints).unwrap();
    assert_eq!(skeleton.node_count(), n);
    assert_eq!(skeleton.roots, vec![n - 1]);
    assert_eq!(skeleton.root_of(0), n - 1);
    joints.push(joint("back", "l0", &format!("l{}", n - 1)));
    assert_eq!(build(&links, &joints).unwrap_err(), Error::CyclicKinematics);
}
