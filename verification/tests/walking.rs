use id3::TagLike;
use soniccave::explorer::{
    list, DirItem, Entry, TagType, Tagged, WalkError, WalkEvent, WalkStep, Walker,
};

fn id3_file() -> Vec<u8> {
    let mut t = id3::Tag::new();
    t.set_title("x");
    let mut bytes = Vec::new();
    t.write_to(&mut bytes, id3::Version::Id3v24).unwrap();
    bytes
}

fn flac_file() -> Vec<u8> {
    let mut t = metaflac::Tag::new();
    t.set_vorbis("TITLE", vec!["x"]);
    let mut bytes = Vec::new();
    t.write_to(&mut bytes).unwrap();
    bytes
}

enum Node {
    Dir(Vec<(&'static str, Node)>),
    File(Vec<u8>),
    Locked,
}

fn find<'a>(root: &'a Node, path: &str) -> &'a Node {
    let mut at = root;
    for part in path.split('/').skip(1) {
        match at {
            Node::Dir(items) => {
                at = &items.iter().find(|(name, _)| *name == part).unwrap().1;
            }
            _ => panic!("not a directory"),
        }
    }
    at
}

fn answer(root: &Node, path: &str) -> WalkEvent {
    match find(root, path) {
        Node::Dir(items) => WalkEvent::Listing {
            entries: items
                .iter()
                .map(|(name, node)| Entry {
                    path: format!("{}/{}", path, name),
                    is_dir: matches!(node, Node::Dir(_)) || name.ends_with(".d"),
                })
                .collect(),
        },
        Node::File(bytes) => WalkEvent::Contents { bytes: bytes.clone() },
        Node::Locked => WalkEvent::Unreadable,
    }
}

fn walk(root: &Node) -> Result<Vec<Tagged>, WalkError> {
    let (mut walker, mut step) = Walker::start("root");
    loop {
        let event = match &step {
            WalkStep::ReadDir { path } => answer(root, path),
            WalkStep::ReadFile { path } => answer(root, path),
            WalkStep::Done => return walker.finish(),
        };
        step = walker.step(event);
    }
}

fn tagged(path: &str, kind: TagType) -> Tagged {
    Tagged { path: path.to_string(), kind }
}

#[test]
fn walk_visits_depth_first_in_listing_order() {
    let root = Node::Dir(vec![
        ("a.mp3", Node::File(id3_file())),
        (
            "sub",
            Node::Dir(vec![
                ("b.flac", Node::File(flac_file())),
                ("deep", Node::Dir(vec![("c.flac", Node::File(id3_file()))])),
                ("notes.txt", Node::File(b"just text".to_vec())),
            ]),
        ),
        ("empty", Node::Dir(vec![])),
        ("z.ogg", Node::File(flac_file())),
    ]);
    assert_eq!(
        walk(&root),
        Ok(vec![
            tagged("root/a.mp3", TagType::Id3),
            tagged("root/sub/b.flac", TagType::Flac),
            tagged("root/sub/deep/c.flac", TagType::Id3),
            tagged("root/z.ogg", TagType::Flac),
        ])
    );
}

#[test]
fn walk_passes_over_a_file_that_cannot_be_read() {
    let root = Node::Dir(vec![("a.mp3", Node::Locked), ("b.mp3", Node::File(id3_file()))]);
    assert_eq!(walk(&root), Ok(vec![tagged("root/b.mp3", TagType::Id3)]));
}

#[test]
fn walk_fails_on_a_directory_that_cannot_be_read() {
    let root = Node::Dir(vec![("a.mp3", Node::File(id3_file())), ("locked.d", Node::Locked)]);
    assert_eq!(walk(&root), Err(WalkError::UnreadableDirectory));
    assert_eq!(walk(&Node::Locked), Err(WalkError::UnreadableDirectory));
}

#[test]
fn walk_of_an_empty_root_finds_nothing() {
    assert_eq!(walk(&Node::Dir(vec![])), Ok(Vec::new()));
}

#[test]
fn walk_begins_by_asking_for_the_root() {
    let (mut walker, first) = Walker::start("/music");
    assert_eq!(first, WalkStep::ReadDir { path: "/music".to_string() });
    let next = walker.step(WalkEvent::Listing {
        entries: vec![
            Entry { path: "/music/one".to_string(), is_dir: true },
            Entry { path: "/music/two.mp3".to_string(), is_dir: false },
        ],
    });
    assert_eq!(next, WalkStep::ReadDir { path: "/music/one".to_string() });
    let next = walker.step(WalkEvent::Listing { entries: vec![] });
    assert_eq!(next, WalkStep::ReadFile { path: "/music/two.mp3".to_string() });
    let next = walker.step(WalkEvent::Listing { entries: vec![] });
    assert_eq!(next, WalkStep::Done);
    assert_eq!(walker.finish(), Err(WalkError::UnreadableDirectory));
}

fn file(path: &str, bytes: Vec<u8>) -> DirItem {
    DirItem::File { path: path.to_string(), bytes: Some(bytes) }
}

fn dir(path: &str, items: Vec<DirItem>) -> DirItem {
    DirItem::Dir { path: path.to_string(), readable: true, items }
}

#[test]
fn list_finds_tagged_files_depth_first() {
    let items = vec![
        file("r/a.mp3", id3_file()),
        dir(
            "r/sub",
            vec![
                file("r/sub/b.flac", flac_file()),
                dir("r/sub/deep", vec![file("r/sub/deep/c.mp3", flac_file())]),
                file("r/sub/notes.txt", b"just text".to_vec()),
                DirItem::File { path: "r/sub/locked.mp3".to_string(), bytes: None },
            ],
        ),
        dir("r/empty", vec![]),
        file("r/z.flac", id3_file()),
    ];
    assert_eq!(
        list("r", &items),
        Ok(vec![
            tagged("r/a.mp3", TagType::Id3),
            tagged("r/sub/b.flac", TagType::Flac),
            tagged("r/sub/deep/c.mp3", TagType::Flac),
            tagged("r/z.flac", TagType::Id3),
        ])
    );
    assert_eq!(list("r", &Vec::new()), Ok(Vec::new()));
}

#[test]
fn list_fails_on_a_directory_that_cannot_be_read() {
    let items = vec![
        file("r/a.mp3", id3_file()),
        dir(
            "r/sub",
            vec![DirItem::Dir { path: "r/sub/locked".to_string(), readable: false, items: vec![] }],
        ),
        file("r/z.flac", id3_file()),
    ];
    assert_eq!(list("r", &items), Err(WalkError::UnreadableDirectory));
}
