use vroomrs::frame::Frame;
use vroomrs::nodetree::Node;
use vroomrs::sample::v2::{
    add_sample, build_call_trees, check_stack, first_samples, sort_samples, thread_call_trees,
    Sample, SampleChunk, SampleData, ThreadCallTrees,
};
use vroomrs::sample::SampleError;
use vroomrs::types::CallTreeError;

fn ns(seconds: f64) -> u64 {
    (seconds * 1e9) as u64
}

fn sample(stack_id: i32, thread_id: &str, seconds: f64) -> Sample {
    Sample {
        stack_id,
        thread_id: thread_id.to_string(),
        timestamp_ns: ns(seconds),
    }
}

fn sample_at(stack_id: i32, thread_id: &str, timestamp_ns: u64) -> Sample {
    Sample {
        stack_id,
        thread_id: thread_id.to_string(),
        timestamp_ns,
    }
}

fn function(name: &str) -> Frame {
    Frame {
        function: Some(name.to_string()),
        ..Default::default()
    }
}

fn functions() -> Vec<Frame> {
    vec![function("function0"), function("function1"), function("function2")]
}

fn chunk(samples: Vec<Sample>, stacks: Vec<Vec<i32>>, frames: Vec<Frame>) -> SampleChunk {
    SampleChunk {
        profile: SampleData {
            frames,
            samples,
            stacks,
        },
    }
}

fn thread(thread_id: &str, trees: Vec<Node>) -> ThreadCallTrees {
    ThreadCallTrees {
        thread_id: thread_id.to_string(),
        trees,
    }
}

fn fnv1a(bytes: &[u8]) -> u64 {
    let mut hash: u64 = 0xcbf2_9ce4_8422_2325;
    for byte in bytes {
        hash ^= *byte as u64;
        hash = hash.wrapping_mul(0x0000_0100_0000_01b3);
    }
    hash
}

#[test]
fn test_call_trees() {
    struct TestStruct {
        name: String,
        chunk: SampleChunk,
        want: Vec<ThreadCallTrees>,
    }

    let mut test_cases = [
        TestStruct {
            name: "call tree with multiple samples per frame".to_string(),
            chunk: chunk(
                vec![
                    sample(0, "1", 0.010),
                    sample(1, "1", 0.040),
                    sample(1, "1", 0.050),
                ],
                vec![vec![1, 0], vec![2, 1, 0]],
                functions(),
            ),
            want: vec![thread(
                "1",
                vec![Node {
                    duration_ns: 40000000,
                    end_ns: 50000000,
                    fingerprint: 6903369137866438128,
                    is_application: true,
                    name: "function0".to_string(),
                    sample_count: 2,
                    start_ns: 10000000,
                    frame: function("function0"),
                    children: vec![Node {
                        duration_ns: 40000000,
                        end_ns: 50000000,
                        start_ns: 10000000,
                        fingerprint: 17095743776245828002,
                        is_application: true,
                        name: "function1".to_string(),
                        sample_count: 2,
                        frame: function("function1"),
                        children: vec![Node {
                            duration_ns: 10000000,
                            end_ns: 50000000,
                            fingerprint: 16529420490907277225,
                            is_application: true,
                            name: "function2".to_string(),
                            sample_count: 1,
                            start_ns: 40000000,
                            frame: function("function2"),
                            ..Default::default()
                        }],
                        ..Default::default()
                    }],
                    ..Default::default()
                }],
            )],
        },
        TestStruct {
            name: "call tree with single sample frames".to_string(),
            chunk: chunk(
                vec![sample(0, "1", 0.010), sample(1, "1", 0.040)],
                vec![vec![1, 0], vec![2, 1, 0]],
                functions(),
            ),
            want: vec![thread(
                "1",
                vec![Node {
                    duration_ns: 30000000,
                    end_ns: 40000000,
                    fingerprint: 6903369137866438128,
                    is_application: true,
                    name: "function0".to_string(),
                    sample_count: 1,
                    start_ns: 10000000,
                    frame: function("function0"),
                    children: vec![Node {
                        duration_ns: 30000000,
                        end_ns: 40000000,
                        fingerprint: 17095743776245828002,
                        is_application: true,
                        name: "function1".to_string(),
                        sample_count: 1,
                        start_ns: 10000000,
                        frame: function("function1"),
                        ..Default::default()
                    }],
                    ..Default::default()
                }],
            )],
        },
        TestStruct {
            name: "call tree with single samples".to_string(),
            chunk: chunk(
                vec![
                    sample(0, "1", 0.010),
                    sample(1, "1", 0.020),
                    sample(2, "1", 0.030),
                ],
                vec![vec![0], vec![1], vec![2]],
                functions(),
            ),
            want: vec![thread(
                "1",
                vec![
                    Node {
                        duration_ns: 10000000,
                        end_ns: 20000000,
                        fingerprint: 6903369137866438128,
                        is_application: true,
                        name: "function0".to_string(),
                        sample_count: 1,
                        start_ns: 10000000,
                        frame: function("function0"),
                        ..Default::default()
                    },
                    Node {
                        duration_ns: 10000000,
                        end_ns: 30000000,
                        fingerprint: 6903370237378066339,
                        is_application: true,
                        name: "function1".to_string(),
                        sample_count: 1,
                        start_ns: 20000000,
                        frame: function("function1"),
                        ..Default::default()
                    },
                ],
            )],
        },
    ];

    for test_case in test_cases.as_mut() {
        let call_trees = test_case.chunk.call_trees(None).unwrap();
        assert_eq!(
            call_trees, test_case.want,
            "test: {} failed.",
            test_case.name
        );
    }
}

#[test]
fn end_to_end_three_stacks() {
    let mut chunk = chunk(
        vec![
            sample(1, "1", 0.010),
            sample(2, "1", 0.040),
            sample(2, "1", 0.050),
        ],
        vec![vec![0], vec![1, 0], vec![2, 1, 0]],
        functions(),
    );
    let trees = chunk.call_trees(None).unwrap();
    assert_eq!(trees.len(), 1);
    assert_eq!(trees[0].thread_id, "1");
    assert_eq!(trees[0].trees.len(), 1);
    let root = &trees[0].trees[0];
    assert_eq!(root.name, "function0");
    assert_eq!((root.start_ns, root.end_ns), (10_000_000, 50_000_000));
    assert_eq!(root.sample_count, 2);
    assert_eq!(root.children.len(), 1);
    let child = &root.children[0];
    assert_eq!(child.name, "function1");
    assert_eq!((child.start_ns, child.end_ns), (10_000_000, 50_000_000));
    assert_eq!(child.sample_count, 2);
    assert_eq!(child.children.len(), 1);
    let leaf = &child.children[0];
    assert_eq!(leaf.name, "function2");
    assert_eq!((leaf.start_ns, leaf.end_ns), (40_000_000, 50_000_000));
    assert_eq!(leaf.sample_count, 1);
    assert!(leaf.children.is_empty());
}

#[test]
fn frame_index_equal_to_the_table_length_is_invalid() {
    let mut chunk = chunk(
        vec![sample(0, "1", 0.010), sample(0, "1", 0.020)],
        vec![vec![3, 0]],
        functions(),
    );
    assert_eq!(chunk.call_trees(None), Err(SampleError::InvalidFrameId));
}

#[test]
fn stack_index_equal_to_the_table_length_is_invalid() {
    let mut chunk = chunk(
        vec![sample(2, "1", 0.010), sample(0, "1", 0.020)],
        vec![vec![0], vec![1]],
        functions(),
    );
    assert_eq!(chunk.call_trees(None), Err(SampleError::InvalidStackId));
}

#[test]
fn negative_indices_are_invalid() {
    let mut chunk1 = chunk(
        vec![sample(-1, "1", 0.010), sample(0, "1", 0.020)],
        vec![vec![0]],
        functions(),
    );
    assert_eq!(chunk1.call_trees(None), Err(SampleError::InvalidStackId));
    let mut chunk2 = chunk(
        vec![sample(0, "1", 0.010), sample(0, "1", 0.020)],
        vec![vec![0, -1]],
        functions(),
    );
    assert_eq!(chunk2.call_trees(None), Err(SampleError::InvalidFrameId));
}

#[test]
fn the_last_sample_of_a_thread_is_not_checked() {
    let mut chunk = chunk(
        vec![sample(0, "1", 0.010), sample(7, "1", 0.020)],
        vec![vec![0]],
        functions(),
    );
    let trees = chunk.call_trees(None).unwrap();
    assert_eq!(trees.len(), 1);
    assert_eq!(trees[0].trees.len(), 1);
    assert_eq!(trees[0].trees[0].duration_ns, 10_000_000);
}

#[test]
fn check_stack_reports_the_stack_before_the_frame() {
    let frames = functions();
    let stacks = vec![vec![0, 1], vec![5], vec![]];
    assert_eq!(check_stack(&frames, &stacks, 0), Ok(()));
    assert_eq!(check_stack(&frames, &stacks, 2), Ok(()));
    assert_eq!(check_stack(&frames, &stacks, 1), Err(SampleError::InvalidFrameId));
    assert_eq!(check_stack(&frames, &stacks, 3), Err(SampleError::InvalidStackId));
    assert_eq!(check_stack(&frames, &stacks, i32::MIN), Err(SampleError::InvalidStackId));
}

#[test]
fn empty_input_gives_no_trees() {
    let mut empty = chunk(vec![], vec![], vec![]);
    assert_eq!(empty.call_trees(None), Ok(vec![]));
    let mut single = chunk(vec![sample(0, "1", 0.010)], vec![vec![0]], functions());
    assert_eq!(single.call_trees(None), Ok(vec![]));
    // samples whose stacks are empty leave no node
    let mut hollow = chunk(
        vec![sample(0, "1", 0.010), sample(0, "1", 0.020)],
        vec![vec![]],
        functions(),
    );
    assert_eq!(hollow.call_trees(None), Ok(vec![]));
}

#[test]
fn samples_are_sorted_by_time() {
    let mut chunk = chunk(
        vec![
            sample(1, "1", 0.050),
            sample(0, "1", 0.010),
            sample(1, "1", 0.040),
        ],
        vec![vec![1, 0], vec![2, 1, 0]],
        functions(),
    );
    let trees = chunk.call_trees(None).unwrap();
    assert_eq!(
        chunk.profile.samples,
        vec![
            sample(0, "1", 0.010),
            sample(1, "1", 0.040),
            sample(1, "1", 0.050)
        ]
    );
    assert_eq!(trees[0].trees[0].sample_count, 2);
    assert_eq!(trees[0].trees[0].duration_ns, 40_000_000);
}

#[test]
fn sort_samples_keeps_every_sample() {
    let mut samples = vec![
        sample_at(0, "a", 30),
        sample_at(1, "b", 10),
        sample_at(2, "c", 30),
        sample_at(3, "d", 20),
        sample_at(4, "e", 10),
        sample_at(5, "f", 0),
    ];
    sort_samples(&mut samples);
    assert_eq!(
        samples,
        vec![
            sample_at(5, "f", 0),
            sample_at(1, "b", 10),
            sample_at(4, "e", 10),
            sample_at(3, "d", 20),
            sample_at(0, "a", 30),
            sample_at(2, "c", 30),
        ]
    );
    let mut none: Vec<Sample> = vec![];
    sort_samples(&mut none);
    assert!(none.is_empty());
}

#[test]
fn threads_come_in_the_order_of_their_first_sample() {
    let mut chunk = chunk(
        vec![
            sample_at(0, "main", 20),
            sample_at(1, "worker", 10),
            sample_at(0, "main", 40),
            sample_at(1, "worker", 30),
            sample_at(0, "idle", 5),
        ],
        vec![vec![0], vec![1]],
        functions(),
    );
    let trees = chunk.call_trees(None).unwrap();
    assert_eq!(trees.len(), 2);
    assert_eq!(trees[0].thread_id, "worker");
    assert_eq!(trees[0].trees[0].name, "function1");
    assert_eq!((trees[0].trees[0].start_ns, trees[0].trees[0].end_ns), (10, 30));
    assert_eq!(trees[1].thread_id, "main");
    assert_eq!(trees[1].trees[0].name, "function0");
    assert_eq!((trees[1].trees[0].start_ns, trees[1].trees[0].end_ns), (20, 40));
    assert_eq!(first_samples(&chunk.profile.samples), vec![0, 1, 2]);
}

#[test]
fn the_active_thread_hides_the_others() {
    let samples = || {
        vec![
            sample_at(0, "main", 20),
            sample_at(9, "worker", 10),
            sample_at(0, "main", 40),
            sample_at(1, "worker", 30),
        ]
    };
    let mut all = chunk(samples(), vec![vec![0], vec![1]], functions());
    // the worker's first sample refers to a stack that does not exist
    assert_eq!(all.call_trees(None), Err(SampleError::InvalidStackId));
    let mut only_main = chunk(samples(), vec![vec![0], vec![1]], functions());
    let trees = only_main.call_trees(Some("main")).unwrap();
    assert_eq!(trees.len(), 1);
    assert_eq!(trees[0].thread_id, "main");
    let mut nobody = chunk(samples(), vec![vec![0], vec![1]], functions());
    assert_eq!(nobody.call_trees(Some("render")), Ok(vec![]));
}

#[test]
fn contiguous_samples_merge_and_gaps_do_not() {
    let frames = functions();
    let stack = vec![1, 0];
    let mut forest: Vec<Node> = Vec::new();
    add_sample(&mut forest, &frames, &stack, 10, 20);
    add_sample(&mut forest, &frames, &stack, 20, 35);
    assert_eq!(forest.len(), 1);
    assert_eq!(forest[0].sample_count, 2);
    assert_eq!((forest[0].start_ns, forest[0].end_ns, forest[0].duration_ns), (10, 35, 25));
    assert_eq!(forest[0].children.len(), 1);
    assert_eq!(forest[0].children[0].sample_count, 2);
    assert_eq!(forest[0].children[0].end_ns, 35);
    // the same stack after a gap starts a sibling
    add_sample(&mut forest, &frames, &stack, 40, 50);
    assert_eq!(forest.len(), 2);
    assert_eq!(forest[0].sample_count, 2);
    assert_eq!(forest[0].end_ns, 35);
    assert_eq!(forest[1].sample_count, 1);
    assert_eq!((forest[1].start_ns, forest[1].end_ns, forest[1].duration_ns), (40, 50, 10));
    assert_eq!(forest[1].fingerprint, forest[0].fingerprint);
    // another leaf below the same root merges the root alone
    add_sample(&mut forest, &frames, &vec![2, 0], 50, 60);
    assert_eq!(forest.len(), 2);
    assert_eq!(forest[1].sample_count, 2);
    assert_eq!(forest[1].children.len(), 2);
    assert_eq!(forest[1].children[0].name, "function1");
    assert_eq!(forest[1].children[0].sample_count, 1);
    assert_eq!(forest[1].children[1].name, "function2");
    assert_eq!((forest[1].children[1].start_ns, forest[1].children[1].end_ns), (50, 60));
    // an empty stack adds nothing
    add_sample(&mut forest, &frames, &vec![], 60, 70);
    assert_eq!(forest.len(), 2);
    assert_eq!(forest[1].end_ns, 60);
}

#[test]
fn fingerprints_hash_package_and_name_from_the_root_down() {
    let frames = vec![
        Frame {
            function: Some("run".to_string()),
            package: Some("/usr/lib/libfoo.so".to_string()),
            ..Default::default()
        },
        Frame {
            module: Some("app.views".to_string()),
            ..Default::default()
        },
        Frame::default(),
        // the same package and name as the first, all else different
        Frame {
            function: Some("run".to_string()),
            package: Some("C:\\tools\\libfoo.dll".to_string()),
            file: Some("foo.c".to_string()),
            line: Some(7),
            in_app: Some(false),
            ..Default::default()
        },
    ];
    let mut forest: Vec<Node> = Vec::new();
    add_sample(&mut forest, &frames, &vec![2, 1, 0], 0, 1);
    let root = &forest[0];
    assert_eq!(root.package, "libfoo");
    assert_eq!(root.fingerprint, fnv1a(b"libfoorun"));
    assert_eq!(root.children[0].fingerprint, fnv1a(b"libfoorunapp.views-"));
    assert_eq!(root.children[0].children[0].fingerprint, fnv1a(b"libfoorunapp.views---"));

    let mut other: Vec<Node> = Vec::new();
    add_sample(&mut other, &frames, &vec![3], 5, 6);
    assert_eq!(other[0].fingerprint, root.fingerprint);
    assert!(!other[0].is_application);

    let mut blank: Vec<Node> = Vec::new();
    add_sample(&mut blank, &frames, &vec![2], 5, 6);
    assert_eq!(blank[0].fingerprint, fnv1a(b"--"));
    let named_in_vain = vec![Frame {
        function: Some(String::new()),
        module: Some(String::new()),
        package: Some(String::new()),
        file: Some("x.c".to_string()),
        ..Default::default()
    }];
    let mut again: Vec<Node> = Vec::new();
    add_sample(&mut again, &named_in_vain, &vec![0], 8, 9);
    assert_eq!(again[0].fingerprint, blank[0].fingerprint);
}

#[test]
fn root_durations_add_up_to_the_time_covered() {
    let mut chunk = chunk(
        vec![
            sample_at(0, "1", 100),
            sample_at(0, "1", 130),
            sample_at(1, "1", 170),
            sample_at(0, "1", 180),
            sample_at(2, "1", 260),
            sample_at(2, "1", 300),
            sample_at(0, "1", 1000),
        ],
        vec![vec![0], vec![1, 0], vec![2]],
        functions(),
    );
    let trees = chunk.call_trees(None).unwrap();
    let roots = &trees[0].trees;
    assert_eq!(roots.len(), 2);
    assert_eq!((roots[0].start_ns, roots[0].end_ns, roots[0].sample_count), (100, 260, 4));
    assert_eq!((roots[1].start_ns, roots[1].end_ns, roots[1].sample_count), (260, 1000, 2));
    let total: u64 = roots.iter().map(|root| root.duration_ns).sum();
    assert_eq!(total, 1000 - 100);
    for root in roots {
        assert_eq!(root.duration_ns, root.end_ns - root.start_ns);
    }
}

#[test]
fn thread_call_trees_reads_one_thread() {
    let frames = functions();
    let stacks = vec![vec![0], vec![1]];
    let samples = vec![
        sample_at(0, "a", 1),
        sample_at(1, "b", 2),
        sample_at(0, "a", 3),
        sample_at(1, "b", 4),
        sample_at(0, "a", 6),
    ];
    let a = thread_call_trees(&frames, &stacks, &samples, &"a".to_string()).unwrap();
    assert_eq!(a.len(), 1);
    assert_eq!((a[0].start_ns, a[0].end_ns, a[0].sample_count), (1, 6, 2));
    let b = thread_call_trees(&frames, &stacks, &samples, &"b".to_string()).unwrap();
    assert_eq!((b[0].start_ns, b[0].end_ns, b[0].sample_count), (2, 4, 1));
    let c = thread_call_trees(&frames, &stacks, &samples, &"c".to_string()).unwrap();
    assert!(c.is_empty());
    let all = build_call_trees(&frames, &stacks, &samples, None).unwrap();
    assert_eq!(all, vec![thread("a", a), thread("b", b)]);
}

#[test]
fn call_tree_errors_in_words() {
    assert_eq!(
        CallTreeError::Sample(SampleError::InvalidStackId).message(),
        "invalid stack id"
    );
    assert_eq!(
        CallTreeError::Sample(SampleError::InvalidFrameId).message(),
        "invalid frame id"
    );
    assert_eq!(CallTreeError::Android.message(), "generic android call_tree error");
}

fn assert_siblings_apart(list: &[Node]) {
    for pair in list.windows(2) {
        assert!(!(pair[0].fingerprint == pair[1].fingerprint && pair[0].end_ns == pair[1].start_ns));
        assert!(pair[0].end_ns <= pair[1].start_ns);
    }
    for node in list {
        assert_siblings_apart(&node.children);
    }
}

fn assert_node_invariants(node: &Node) {
    assert!(node.start_ns <= node.end_ns);
    assert_eq!(node.duration_ns, node.end_ns - node.start_ns);
    let mut counted = 0;
    for child in &node.children {
        assert!(node.start_ns <= child.start_ns);
        assert!(child.end_ns <= node.end_ns);
        counted += child.sample_count;
        assert_node_invariants(child);
    }
    assert!(counted <= node.sample_count);
}

#[test]
fn siblings_are_apart_and_children_within_their_parents() {
    let mut chunk = chunk(
        vec![
            sample_at(3, "b", 95),
            sample_at(1, "a", 10),
            sample_at(1, "a", 20),
            sample_at(0, "a", 30),
            sample_at(4, "a", 40),
            sample_at(2, "a", 50),
            sample_at(1, "b", 55),
            sample_at(2, "a", 60),
            sample_at(4, "a", 70),
            sample_at(1, "a", 80),
            sample_at(3, "a", 90),
            sample_at(0, "a", 100),
            sample_at(0, "b", 75),
        ],
        vec![vec![0], vec![1, 0], vec![2, 1, 0], vec![2, 0], vec![]],
        functions(),
    );
    let trees = chunk.call_trees(None).unwrap();
    assert_eq!(trees.len(), 2);
    assert_ne!(trees[0].thread_id, trees[1].thread_id);
    for thread in &trees {
        assert_siblings_apart(&thread.trees);
        for root in &thread.trees {
            assert_node_invariants(root);
        }
    }
    // thread a: function0 from 10 to 40, nothing from 40 to 50, function0
    // from 50 to 70, nothing from 70 to 80, function0 from 80 to 100
    let a = &trees[0].trees;
    let spans: Vec<(u64, u64, u64)> = a.iter().map(|n| (n.start_ns, n.end_ns, n.sample_count)).collect();
    assert_eq!(spans, vec![(10, 40, 3), (50, 70, 2), (80, 100, 2)]);
    // the second root: function1 twice, then function2 below it
    assert_eq!(a[1].children.len(), 1);
    assert_eq!(a[1].children[0].sample_count, 2);
    assert_eq!(a[1].children[0].children[0].sample_count, 2);
    // the third root: function1, then function2 beside it
    let names: Vec<&str> = a[2].children.iter().map(|n| n.name.as_str()).collect();
    assert_eq!(names, vec!["function1", "function2"]);
}

#[test]
fn samples_with_one_root_frame_give_one_root() {
    let mut chunk = chunk(
        vec![
            sample_at(1, "a", 500),
            sample_at(0, "a", 100),
            sample_at(5, "b", 150),
            sample_at(2, "a", 200),
            sample_at(3, "a", 350),
            // the latest sample of the thread only ends the one before it
            sample_at(4, "a", 900),
            sample_at(5, "b", 950),
        ],
        vec![vec![0], vec![1, 0], vec![2, 1, 0], vec![2, 0], vec![1], vec![1, 2]],
        functions(),
    );
    let trees = chunk.call_trees(None).unwrap();
    assert_eq!(trees[0].thread_id, "a");
    assert_eq!(trees[0].trees.len(), 1);
    let root = &trees[0].trees[0];
    assert_eq!(root.frame, function("function0"));
    assert_eq!(
        (root.start_ns, root.end_ns, root.duration_ns, root.sample_count),
        (100, 900, 800, 4)
    );
    assert_eq!(trees[1].thread_id, "b");
    assert_eq!(trees[1].trees.len(), 1);
    assert_eq!(trees[1].trees[0].frame, function("function2"));
    assert_eq!(
        (trees[1].trees[0].start_ns, trees[1].trees[0].end_ns, trees[1].trees[0].sample_count),
        (150, 950, 1)
    );
}
