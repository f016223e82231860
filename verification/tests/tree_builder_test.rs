use redis_nav::RedisType;
use redis_nav::tree::NodeType;
use redis_nav::tree::TreeBuilder;

#[test]
fn test_single_delimiter() {
    let builder = TreeBuilder::new(vec![':']);
    let keys = vec![
        ("user:1:name".to_string(), RedisType::String),
        ("user:1:email".to_string(), RedisType::String),
        ("user:2:name".to_string(), RedisType::String),
    ];

    let tree = builder.build(&keys);

    assert_eq!(tree.len(), 1);
    assert_eq!(tree[0].name, "user");
    assert_eq!(tree[0].children.len(), 2); // user:1 and user:2
}

#[test]
fn test_multiple_delimiters() {
    let builder = TreeBuilder::new(vec![':', '/']);
    let keys = vec![
        ("user:1:name".to_string(), RedisType::String),
        ("api/v1/users".to_string(), RedisType::String),
    ];

    let tree = builder.build(&keys);

    assert_eq!(tree.len(), 2); // "user" and "api"
}

#[test]
fn test_empty_keys() {
    let builder = TreeBuilder::new(vec![':']);
    let keys: Vec<(String, RedisType)> = vec![];

    let tree = builder.build(&keys);

    assert!(tree.is_empty());
}

#[test]
fn hybrid_merge_makes_one_root() {
    // keys ["user", "user:1"] with delimiter ':' merge onto one node
    let builder = TreeBuilder::new(vec![':']);
    let keys = vec![
        ("user".to_string(), RedisType::String),
        ("user:1".to_string(), RedisType::String),
    ];

    let tree = builder.build(&keys);

    assert_eq!(tree.len(), 1);
    assert_eq!(tree[0].name, "user");
    assert_eq!(tree[0].full_key.as_deref(), Some("user"));
    assert_eq!(tree[0].children.len(), 1);
    assert_eq!(tree[0].children[0].name, "1");
    assert_eq!(tree[0].children[0].full_key.as_deref(), Some("user:1"));
    assert!(tree[0].children[0].children.is_empty());
}

#[test]
fn folders_sort_before_leaves_and_names_increase() {
    let builder = TreeBuilder::new(vec![':']);
    let keys = vec![
        ("zeta".to_string(), RedisType::String),
        ("alpha".to_string(), RedisType::String),
        ("mid:inner".to_string(), RedisType::String),
        ("beta:inner".to_string(), RedisType::String),
    ];

    let tree = builder.build(&keys);

    // branch nodes first (beta, mid), then pure leaves (alpha, zeta)
    let names: Vec<&str> = tree.iter().map(|n| n.name.as_str()).collect();
    assert_eq!(names, vec!["beta", "mid", "alpha", "zeta"]);
    assert!(matches!(tree[0].node_type, NodeType::Folder));
    assert!(matches!(tree[2].node_type, NodeType::Key(RedisType::String)));
}

#[test]
fn hybrid_sorts_with_branches() {
    let builder = TreeBuilder::new(vec![':']);
    let keys = vec![
        ("aaa".to_string(), RedisType::String),
        ("zzz".to_string(), RedisType::Hash),
        ("zzz:child".to_string(), RedisType::String),
    ];

    let tree = builder.build(&keys);

    // the hybrid "zzz" is a branch and orders before the pure leaf "aaa"
    assert_eq!(tree[0].name, "zzz");
    assert_eq!(tree[0].full_key.as_deref(), Some("zzz"));
    assert_eq!(tree[0].children.len(), 1);
    assert_eq!(tree[1].name, "aaa");
}

#[test]
fn later_key_kind_wins_on_collision() {
    let builder = TreeBuilder::new(vec![':']);
    let keys = vec![
        ("k".to_string(), RedisType::String),
        ("k".to_string(), RedisType::Hash),
    ];

    let tree = builder.build(&keys);

    assert_eq!(tree.len(), 1);
    assert!(matches!(tree[0].node_type, NodeType::Key(RedisType::Hash)));
}

#[test]
fn consecutive_delimiters_produce_no_empty_segments() {
    let builder = TreeBuilder::new(vec![':']);
    let keys = vec![
        ("::a:::b::".to_string(), RedisType::String),
        (":::".to_string(), RedisType::String), // splits to nothing: dropped
    ];

    let tree = builder.build(&keys);

    assert_eq!(tree.len(), 1);
    assert_eq!(tree[0].name, "a");
    assert_eq!(tree[0].children.len(), 1);
    assert_eq!(tree[0].children[0].name, "b");
    assert_eq!(tree[0].children[0].full_key.as_deref(), Some("::a:::b::"));
}

#[test]
fn building_twice_gives_identical_trees() {
    let builder = TreeBuilder::new(vec![':', '/']);
    let keys = vec![
        ("user:2".to_string(), RedisType::Hash),
        ("api/v1".to_string(), RedisType::String),
        ("user:1".to_string(), RedisType::String),
        ("user".to_string(), RedisType::SetKind),
    ];

    let first = builder.build(&keys);
    let second = builder.build(&keys);

    fn same(a: &redis_nav::tree::TreeNode, b: &redis_nav::tree::TreeNode) -> bool {
        a.name == b.name && a.full_key == b.full_key && a.expanded == b.expanded
            && matches!((&a.node_type, &b.node_type),
                (NodeType::Folder, NodeType::Folder) | (NodeType::Key(_), NodeType::Key(_)))
            && a.children.len() == b.children.len()
            && a.children.iter().zip(b.children.iter()).all(|(x, y)| same(x, y))
    }
    assert_eq!(first.len(), second.len());
    assert!(first.iter().zip(second.iter()).all(|(x, y)| same(x, y)));
}

#[test]
fn key_order_does_not_change_the_tree() {
    // the same key set in a different order builds the same tree
    let builder = TreeBuilder::new(vec![':']);
    let keys = vec![
        ("user:2:name".to_string(), RedisType::String),
        ("b".to_string(), RedisType::Hash),
        ("user:1".to_string(), RedisType::SetKind),
        ("a:x".to_string(), RedisType::String),
    ];
    let mut shuffled = keys.clone();
    shuffled.reverse();
    shuffled.swap(1, 2);

    let first = builder.build(&keys);
    let second = builder.build(&shuffled);

    fn render(nodes: &[redis_nav::tree::TreeNode], out: &mut Vec<String>) {
        for n in nodes {
            out.push(format!("{} {:?} {:?}", n.name, n.full_key, n.children.len()));
            render(&n.children, out);
        }
    }
    let mut r1 = Vec::new();
    let mut r2 = Vec::new();
    render(&first, &mut r1);
    render(&second, &mut r2);
    assert_eq!(r1, r2);
}

#[test]
fn split_and_join_round_trip() {
    let parts = redis_nav::segments::split_key("user:1:name", &vec![':', '/']);
    assert_eq!(parts, vec!["user", "1", "name"]);
    let joined = redis_nav::segments::join_segments(&parts, '/');
    assert_eq!(joined, "user/1/name");
    let reparts = redis_nav::segments::split_key(&joined, &vec![':', '/']);
    assert_eq!(reparts, parts);
}
