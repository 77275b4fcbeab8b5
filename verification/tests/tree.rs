use mpfiles::kind::{
    kind_class, kind_tag, tag_kind, FileKind, FILE_KINDS, KIND_BUNDLE, KIND_CLASSES, OTHER_CLASS,
};
use mpfiles::path::{texts_of, FilePath, Name, Part, Step};
use mpfiles::tree::{Node, ScanStep};

fn names(list: &[&str]) -> Vec<String> {
    list.iter().map(|n| n.to_string()).collect()
}

/// `text`, split at its bars.
fn path(text: &str) -> FilePath {
    let mut path = FilePath::new();
    if text.starts_with('/') {
        path.push(Part::Root { written: "/".to_string() });
    }
    for part in text.split('/').filter(|p| !p.is_empty()) {
        path.push(match part {
            "." => Part::Current,
            ".." => Part::Parent,
            name => Part::Name(Name::Text(name.to_string())),
        });
    }
    path
}

fn file(name: &str, size: u64) -> Node {
    Node {
        name: name.to_string(),
        size,
        files: 1,
        kind: kind_tag(FileKind::Generic),
        is_dir: false,
        pending: false,
        denied: false,
        children: Vec::new(),
    }
}

fn folder(name: &str, children: Vec<Node>) -> Node {
    let mut node = Node::dir(name.to_string(), kind_tag(FileKind::Folder));
    node.size = children.iter().map(|c| c.size).sum();
    node.files = children.iter().map(|c| c.files).sum();
    node.children = children;
    node
}

fn home() -> Node {
    folder(
        "home",
        vec![
            folder("a", vec![file("x", 10), file("y", 20)]),
            folder("b", vec![folder("c", vec![file("z", 5)])]),
            file("top", 1),
        ],
    )
}

fn sums_up(node: &Node) -> bool {
    !node.is_dir
        || (node.size == node.children.iter().map(|c| c.size).sum::<u64>()
            && node.files == node.children.iter().map(|c| c.files).sum::<u32>()
            && node.children.iter().all(sums_up))
}

// ------------------------------------------------------------------ the kinds

#[test]
fn the_kind_tag_survives_the_round_trip_through_a_byte() {
    for (index, kind) in FILE_KINDS.iter().enumerate() {
        assert_eq!(*kind as usize, index, "{kind:?}");
        assert_eq!(kind_tag(*kind) as usize, index, "{kind:?}");
        assert_eq!(tag_kind(index as u8), *kind);
    }
}

#[test]
fn every_kind_lands_on_a_palette_class() {
    for kind in FILE_KINDS {
        let class = kind_class(kind) as usize;
        assert!(class < KIND_CLASSES, "{kind:?} -> {class}");
    }
    // The classes that carry the picture are all different colors.
    let video = kind_class(FileKind::Video);
    let image = kind_class(FileKind::Image);
    let archive = kind_class(FileKind::Archive);
    assert_ne!(video, image);
    assert_ne!(image, archive);
}

#[test]
fn the_bundle_tag_is_not_a_file_kind() {
    assert!(KIND_BUNDLE as usize >= FILE_KINDS.len());
    let class = kind_class(FileKind::Generic) as usize;
    assert!(class < KIND_CLASSES);
}

#[test]
fn each_kind_has_its_class() {
    let classes: Vec<u8> = FILE_KINDS.iter().map(|k| kind_class(*k)).collect();
    assert_eq!(classes, vec![6, 1, 4, 3, 2, 0, 5, 4, 6]);
    for tag in 9..=255u8 {
        assert_eq!(tag_kind(tag), FileKind::Generic);
        assert_eq!(kind_class(tag_kind(tag)), OTHER_CLASS);
    }
}

// ------------------------------------------------------------------ the paths

#[test]
fn paths_are_compared_part_by_part() {
    let base = path("/home");
    assert!(path("/home").same(&base));
    assert!(!path("home").same(&base));
    assert!(!path("/home/a").same(&base));
    assert!(FilePath::new().is_empty());
    assert!(!base.is_empty());
    assert_eq!(base.copy(), base);
    assert_eq!(path("/home/a/b").strip(&base), Some(path("a/b")));
    assert_eq!(path("/home").strip(&base), Some(FilePath::new()));
    assert_eq!(path("/homes/a").strip(&base), None);
    assert_eq!(path("/").strip(&base), None);
}

#[test]
fn a_path_has_a_name_and_a_parent() {
    assert_eq!(path("/home/a").file_name(), Some("a".to_string()));
    assert_eq!(path("/").file_name(), None);
    assert_eq!(path("a/..").file_name(), None);
    assert_eq!(FilePath::new().file_name(), None);
    assert_eq!(path("/home/a").parent(), Some(path("/home")));
    assert_eq!(path("/home").parent(), Some(path("/")));
    assert_eq!(path("/").parent(), None);
    assert_eq!(path("home").parent(), Some(FilePath::new()));
    assert_eq!(FilePath::new().parent(), None);
    let mut drive = FilePath::new();
    drive.push(drive_part("c:", "C:"));
    assert_eq!(drive.parent(), None);
}

#[test]
fn a_path_is_written_with_bars() {
    assert_eq!(path("/home/a b/c").text(), "/home/a b/c");
    assert_eq!(path("/").text(), "/");
    assert_eq!(path("./a/../b").text(), "./a/../b");
    assert_eq!(FilePath::new().text(), "");
    assert_eq!(texts_of(&path("/a/..").plain_parts()), names(&["/", "a", ".."]));
    let mut grown = path("/home");
    grown.push(Part::Name(Name::Text("a".to_string())));
    assert_eq!(grown, path("/home/a"));
    assert_eq!(grown.text(), "/home/a");
}

fn drive_part(written: &str, key: &str) -> Part {
    Part::Prefix {
        key: Name::Text(key.to_string()),
        name: Name::Text(written.to_string()),
        drive: true,
    }
}

fn name(text: &str) -> Part {
    Part::Name(Name::Text(text.to_string()))
}

/// `/a//b/./c//`
fn spelt() -> FilePath {
    let step = |lead: &str, part: Part| Step { lead: lead.to_string(), part };
    FilePath {
        steps: vec![
            step("", Part::Root { written: "/".to_string() }),
            step("", name("a")),
            step("//", name("b")),
            step("/./", name("c")),
        ],
        tail: "//".to_string(),
        bar: '/',
    }
}

#[test]
fn a_path_is_shown_the_way_it_was_written() {
    assert_eq!(spelt().text(), "/a//b/./c//");
    assert_eq!(spelt(), path("/a/b/c"));
    assert_eq!(spelt().strip(&path("/a")).unwrap().text(), "b/./c");
    assert_eq!(spelt().strip(&FilePath::new()).unwrap().text(), "/a//b/./c");
    assert_eq!(spelt().parent().unwrap().text(), "/a//b");
    assert_eq!(spelt().copy().text(), "/a//b/./c//");
    let mut grown = spelt();
    grown.push(name("d"));
    assert_eq!(grown.text(), "/a//b/./c//d");
    let mut grown = spelt();
    grown.tail = "/.".to_string();
    grown.push(name("d"));
    assert_eq!(grown.text(), "/a//b/./c/./d");
}

#[test]
fn a_platform_has_its_own_separator() {
    let mut drive = FilePath::new();
    drive.bar = '\\';
    drive.push(drive_part("c:", "C:"));
    let mut relative = drive.copy();
    relative.push(name("x"));
    assert_eq!(relative.text(), "c:x");
    drive.push(Part::Root { written: "/".to_string() });
    drive.push(name("x"));
    drive.push(name("y"));
    assert_eq!(drive.text(), "c:/x\\y");
    let mut same = FilePath::new();
    same.bar = '\\';
    same.push(drive_part("C:", "C:"));
    same.push(Part::Root { written: "\\".to_string() });
    same.push(name("x"));
    same.push(name("y"));
    assert_eq!(drive, same);
    assert_eq!(same.text(), "C:\\x\\y");
    assert_eq!(texts_of(&drive.plain_parts()), names(&["c:", "\\", "x", "y"]));
}

#[test]
fn what_was_joined_strips_off_again() {
    let mut grown = spelt();
    grown.push(name("d"));
    grown.push(Part::Parent);
    let rest = grown.strip(&path("/a/b/c")).unwrap();
    assert_eq!(texts_of(&rest.plain_parts()), names(&["d", ".."]));
}

// ------------------------------------------------------------------- the tree

#[test]
fn names_lead_through_the_tree() {
    let home = home();
    assert_eq!(home.at(&names(&["b", "c", "z"])).unwrap().size, 5);
    assert_eq!(home.at(&[].to_vec()).unwrap().name, "home");
    assert!(home.at(&names(&["b", "q"])).is_none());
    assert_eq!(home.child_named(&"top".to_string()).unwrap().size, 1);
    assert!(home.child_named(&"z".to_string()).is_none());
    assert_eq!(home.deepest(&names(&["b", "q", "z"])).name, "b");
    assert_eq!(home.deepest(&names(&["b", "c"])).name, "c");
    assert!(home.leads_to_folder(&names(&["b", "c"])));
    assert!(!home.leads_to_folder(&names(&["b", "c", "z"])));
    assert!(!home.leads_to_folder(&names(&["q"])));
    assert!(home.leads_to_folder(&[].to_vec()));
}

#[test]
fn of_two_children_of_a_name_the_first_is_meant() {
    let twice = folder("r", vec![file("n", 1), file("n", 2)]);
    assert_eq!(twice.child_named(&"n".to_string()).unwrap().size, 1);
}

#[test]
fn detaching_takes_the_weight_off_every_folder_above() {
    let mut home = home();
    let gone = home.detach(&names(&["b", "c", "z"])).unwrap();
    assert_eq!((gone.name.as_str(), gone.size), ("z", 5));
    assert_eq!((home.size, home.files), (31, 3));
    assert_eq!(home.at(&names(&["b"])).unwrap().size, 0);
    assert!(home.at(&names(&["b", "c", "z"])).is_none());
    assert_eq!(home.at(&names(&["a", "y"])).unwrap().size, 20);
    assert!(sums_up(&home));
    assert!(home.detach(&names(&["b", "c", "z"])).is_none());
    assert!(home.detach(&[].to_vec()).is_none());
    assert_eq!(home.size, 31);
}

#[test]
fn grafting_adds_the_weight_to_every_folder_above() {
    let mut home = home();
    assert!(home.graft(&names(&["b", "c"]), file("new", 100)));
    assert_eq!((home.size, home.files), (136, 5));
    assert_eq!(home.at(&names(&["b"])).unwrap().size, 105);
    assert_eq!(home.at(&names(&["b", "c", "new"])).unwrap().size, 100);
    assert!(sums_up(&home));
    // Nothing goes into a file, nor where nothing is.
    assert!(!home.graft(&names(&["top"]), file("new", 100)));
    assert!(!home.graft(&names(&["q"]), file("new", 100)));
    assert_eq!((home.size, home.files), (136, 5));
    assert!(home.graft(&[].to_vec(), file("more", 4)));
    assert_eq!(home.children.last().unwrap().name, "more");
    assert_eq!(home.size, 140);
}

#[test]
fn sizes_stay_within_what_there_can_be() {
    let mut home = folder("r", vec![file("big", u64::MAX - 1)]);
    assert!(home.graft(&[].to_vec(), file("more", 5)));
    assert_eq!(home.size, u64::MAX);
    home.size = 3;
    home.files = 0;
    assert!(home.detach(&names(&["big"])).is_some());
    assert_eq!((home.size, home.files), (0, 0));
}

#[test]
fn a_move_keeps_the_total() {
    let mut home = home();
    let mut gone = home.detach(&names(&["a", "y"])).unwrap();
    gone.name = "moved".to_string();
    assert!(home.graft(&names(&["b", "c"]), gone));
    assert_eq!((home.size, home.files), (36, 4));
    assert_eq!(home.at(&names(&["b", "c", "moved"])).unwrap().size, 20);
    assert!(sums_up(&home));
}

#[test]
fn a_closed_folder_replaces_what_was_known_of_it() {
    let mut root = Node::dir("r".to_string(), 0);
    root.apply(ScanStep::Closed {
        at: Vec::new(),
        node: folder("r", vec![Node::dir("a".to_string(), 0), file("f", 7)]),
    });
    assert_eq!((root.size, root.files), (7, 1));
    root.apply(ScanStep::Closed { at: names(&["a"]), node: folder("a", vec![file("x", 3)]) });
    assert_eq!((root.size, root.files), (10, 2));
    root.apply(ScanStep::Closed { at: names(&["a"]), node: folder("a", vec![file("x", 2)]) });
    assert_eq!((root.size, root.files), (9, 2));
    assert!(sums_up(&root));
    // A folder that is not there is not made up.
    root.apply(ScanStep::Closed { at: names(&["q", "r"]), node: file("x", 2) });
    root.apply(ScanStep::Pace { folders_left: 3 });
    assert_eq!((root.size, root.files), (9, 2));
}

#[test]
fn sealing_settles_everything_and_changes_nothing_else() {
    let mut root = folder("r", vec![Node::dir("a".to_string(), 0), file("f", 7)]);
    assert!(root.pending && root.children[0].pending);
    root.seal();
    assert!(!root.pending && !root.children[0].pending);
    assert_eq!((root.size, root.files, root.children.len()), (7, 1, 2));
}

#[test]
fn refused_folders_are_named_outermost_first() {
    let mut root = home();
    root.children[0].denied = true;
    root.children[1].denied = true;
    root.children[1].children[0].denied = true;
    assert_eq!(root.denied_paths(4), names(&["home/a", "home/b", "home/b/c"]));
    assert_eq!(root.denied_paths(2), names(&["home/a", "home/b"]));
    assert_eq!(root.denied_paths(0), names(&[]));
    root.denied = true;
    assert_eq!(root.denied_paths(1), names(&["home"]));
}

#[test]
fn a_copy_is_the_same_tree() {
    let home = home();
    let copy = home.copy();
    assert_eq!(copy.size, home.size);
    assert_eq!(copy.at(&names(&["b", "c", "z"])).unwrap().size, 5);
    assert_eq!(copy.children.len(), 3);
}
