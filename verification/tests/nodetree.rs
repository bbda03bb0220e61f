use vroomrs::debugmeta::{DebugMeta, Image};
use fnv_rs::Fnv64;
use std::hash::Hasher;
use vroomrs::frame::{Data, Frame};
use vroomrs::nodetree::Node;

fn digest(node: &Node) -> u64 {
    let mut hasher = Fnv64::default();
    node.write_to_hash(&mut hasher);
    hasher.finish()
}

fn fnv1a_of(bytes: &[u8]) -> u64 {
    let mut hash: u64 = 0xcbf2_9ce4_8422_2325;
    for byte in bytes {
        hash ^= *byte as u64;
        hash = hash.wrapping_mul(0x0000_0100_0000_01b3);
    }
    hash
}

#[test]
fn from_frame_copies_the_frame() {
    let frame = Frame {
        function: Some("run".to_string()),
        package: Some("/usr/lib/libfoo.dylib".to_string()),
        path: Some("/src/foo.c".to_string()),
        line: Some(12),
        in_app: Some(false),
        ..Default::default()
    };
    let node = Node::from_frame(&frame, 100, 250, 77);
    assert_eq!(
        node,
        Node {
            children: vec![],
            duration_ns: 150,
            fingerprint: 77,
            is_application: false,
            line: Some(12),
            name: "run".to_string(),
            package: "libfoo".to_string(),
            path: Some("/src/foo.c".to_string()),
            end_ns: 250,
            frame: frame.clone(),
            sample_count: 1,
            start_ns: 100,
        }
    );
    let unset = Node::from_frame(&Frame::default(), 0, 0, 1);
    assert!(unset.is_application);
    assert_eq!(unset.duration_ns, 0);
    assert_eq!(unset.name, "");
    assert_eq!(unset.package, "");
}

#[test]
fn update_counts_and_extends() {
    let mut node = Node::from_frame(&Frame::default(), 100, 250, 77);
    node.update(400);
    assert_eq!((node.sample_count, node.start_ns, node.end_ns, node.duration_ns), (2, 100, 400, 300));
    node.set_duration(100);
    assert_eq!((node.sample_count, node.start_ns, node.end_ns, node.duration_ns), (2, 100, 100, 0));
}

#[test]
fn to_frame_carries_the_status_into_the_data() {
    let frame = Frame {
        function: Some("run".to_string()),
        status: Some("symbolicated".to_string()),
        data: Some(Data {
            deobfuscation_status: Some("ok".to_string()),
            symbolicator_status: Some("missing".to_string()),
            js_symbolicated: Some(true),
        }),
        ..Default::default()
    };
    let node = Node::from_frame(&frame, 1, 2, 3);
    let back = node.to_frame();
    assert_eq!(
        back,
        Frame {
            function: Some("run".to_string()),
            status: Some("symbolicated".to_string()),
            data: Some(Data {
                deobfuscation_status: Some("ok".to_string()),
                symbolicator_status: Some("symbolicated".to_string()),
                js_symbolicated: Some(true),
            }),
            ..Default::default()
        }
    );
    let plain = Node::from_frame(&Frame::default(), 1, 2, 3);
    assert_eq!(plain.to_frame(), Frame::default());
}

#[test]
fn nodes_hash_package_and_name_or_a_dash() {
    let frame = Frame {
        function: Some("run".to_string()),
        module: Some("app".to_string()),
        ..Default::default()
    };
    let node = Node::from_frame(&frame, 1, 2, 3);
    assert_eq!(digest(&node), fnv1a_of(b"apprun"));
    assert_eq!(digest(&Node::default()), fnv1a_of(b"-"));
    let nameless = Node {
        package: "app".to_string(),
        ..Default::default()
    };
    assert_eq!(digest(&nameless), fnv1a_of(b"app"));
    // a hasher that has taken something in goes on from there
    let mut hasher = Fnv64::default();
    node.write_to_hash(&mut hasher);
    Node::default().write_to_hash(&mut hasher);
    frame.write_to_hash(&mut hasher);
    Frame::default().write_to_hash(&mut hasher);
    assert_eq!(hasher.finish(), fnv1a_of(b"apprun-apprun--"));
}

#[test]
fn clone_copies_the_whole_tree() {
    let mut root = Node::from_frame(&Frame::default(), 1, 9, 3);
    let mut child = Node::from_frame(&Frame::default(), 1, 5, 4);
    child.children.push(Node::from_frame(&Frame::default(), 2, 3, 5));
    root.children.push(child);
    root.children.push(Node::from_frame(&Frame::default(), 5, 9, 6));
    let copy = root.clone();
    assert_eq!(copy, root);
    assert_eq!(copy.children[0].children[0].fingerprint, 5);
}

#[test]
fn debug_meta_is_empty_without_images() {
    assert!(DebugMeta::default().is_empty());
    let meta = DebugMeta {
        images: vec![Image {
            arch: None,
            code_file: None,
            debug_id: None,
            debug_status: None,
            features: None,
            image_addr: None,
            image_size: Some(4096),
            image_vmaddr: None,
            image_type: Some("macho".to_string()),
            uuid: None,
        }],
    };
    assert!(!meta.is_empty());
}
