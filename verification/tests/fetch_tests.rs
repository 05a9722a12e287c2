use notion_mirror::fetch::BlockFetcher;
use notion_mirror::notion::Block;

// children_marker is the cheapest all-None block constructor; rewrite its
// identity fields to get a plain payload-free block.
fn blk(id: &str, has_children: bool) -> Block {
    let mut b = Block::children_marker("x");
    b.id = id.to_string();
    b.block_type = "paragraph".to_string();
    b.has_children = has_children;
    b
}

fn drive(mut fetcher: BlockFetcher, mut children_for: impl FnMut(&str) -> Vec<Block>) -> Vec<Block> {
    while !fetcher.is_done() {
        match fetcher.next_fetch() {
            Some(id) => {
                let children = children_for(&id);
                fetcher.supply_children(children);
            },
            None => fetcher.advance(),
        }
    }
    fetcher.finish()
}

#[test]
fn depth_zero_is_flat_with_no_markers() {
    let roots = vec![blk("a", true), blk("b", false)];
    let out = drive(BlockFetcher::new(roots, 0), |_| panic!("no fetch at depth zero"));
    assert_eq!(out.len(), 2);
    assert_eq!(out[0].id, "a");
    assert_eq!(out[1].id, "b");
    assert!(out.iter().all(|b| b.block_type != "children"));
}

#[test]
fn one_level_expansion_inserts_marker_then_children() {
    let roots = vec![blk("a", true), blk("b", false)];
    let out = drive(BlockFetcher::new(roots, 1), |id| {
        assert_eq!(id, "a");
        vec![blk("a1", true), blk("a2", false)]
    });
    let ids: Vec<&str> = out.iter().map(|b| b.id.as_str()).collect();
    assert_eq!(ids, vec!["a", "a::children", "a1", "a2", "b"]);
    assert_eq!(out[1].block_type, "children");
    assert!(!out[1].has_children);
    // budget exhausted: a1 has children but depth 1 stops after one level
    assert!(out.iter().filter(|b| b.block_type == "children").count() == 1);
}

#[test]
fn nested_expansion_is_preorder() {
    let roots = vec![blk("a", true)];
    let out = drive(BlockFetcher::new(roots, 3), |id| match id {
        "a" => vec![blk("a1", true), blk("a2", false)],
        "a1" => vec![blk("a1x", false)],
        other => panic!("unexpected fetch {other}"),
    });
    let ids: Vec<&str> = out.iter().map(|b| b.id.as_str()).collect();
    assert_eq!(ids, vec!["a", "a::children", "a1", "a1::children", "a1x", "a2"]);
}

#[test]
fn every_marker_follows_its_parent() {
    let roots = vec![blk("a", true), blk("b", true)];
    let out = drive(BlockFetcher::new(roots, 2), |id| match id {
        "a" => vec![blk("c", true)],
        "c" => vec![blk("d", false)],
        "b" => vec![],
        other => panic!("unexpected fetch {other}"),
    });
    for (i, b) in out.iter().enumerate() {
        if b.block_type == "children" {
            assert!(i >= 1);
            let parent = &out[i - 1];
            assert_ne!(parent.block_type, "children");
            assert_eq!(b.id, format!("{}::children", parent.id));
        }
    }
    // no block appears twice
    for i in 0..out.len() {
        for j in 0..i {
            assert_ne!(out[i].id, out[j].id);
        }
    }
}
