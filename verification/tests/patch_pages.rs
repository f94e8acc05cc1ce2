use rsvelte::patch::{PatchOp, PatchTreeNode};
use rsvelte::patch_page::{add, Page};
use rsvelte::split_flags_page::Page as StatePage;

use PatchTreeNode::{Leaf, Node};

fn set(id: u32, v: &str) -> PatchTreeNode {
    Leaf(id, PatchOp::SetContent { value: v.to_string() })
}

fn tag(id: u32, t: &str, parent: u32) -> PatchTreeNode {
    Leaf(id, PatchOp::MountTag { tag: t.to_string(), parent_id: parent })
}

fn click(id: u32, path: Vec<u32>) -> PatchTreeNode {
    Leaf(id, PatchOp::MountEventListener { event_type: "click".to_string(), target_id_path: path })
}

fn mount_head(button: Vec<PatchTreeNode>) -> Vec<PatchTreeNode> {
    vec![
        Leaf(0, PatchOp::MountPage { tag: "div".to_string() }),
        tag(1, "button", 0),
        tag(2, "button", 0),
        Leaf(3, PatchOp::MountFragment { tag: "div".to_string(), parent_id: 0 }),
        Node(3, button),
        tag(4, "p", 0),
        tag(5, "p", 0),
        Leaf(6, PatchOp::MountComment { parent_id: 0 }),
        Leaf(7, PatchOp::AddToMap { tag: "p".to_string() }),
        set(7, "Counter is greater than 5!"),
        Leaf(8, PatchOp::AddToMap { tag: "p".to_string() }),
        set(8, "Counter is 5 or less."),
        Leaf(8, PatchOp::InsertBefore { reference_id: 6, parent_id: 0 }),
        Leaf(9, PatchOp::MountEachFragment),
        tag(10, "div", 0),
        tag(11, "p", 10),
        click(1, vec![1]),
        click(2, vec![2]),
    ]
}

fn button_mount() -> Vec<PatchTreeNode> {
    vec![
        tag(1, "button", 0),
        tag(2, "button", 0),
        set(2, "Set parent"),
        click(1, vec![1, 3]),
        click(2, vec![2, 3]),
    ]
}

#[test]
fn page_mounts_and_renders_everything() {
    let mut page = Page::new();
    let patches = page.mount_page();
    let mut button = button_mount();
    button.push(set(1, ": 0"));
    let mut expected = mount_head(button);
    expected.extend(vec![
        set(1, "Count: 1"),
        set(4, "Count: 1"),
        Leaf(8, PatchOp::UnmountTag { parent_id: 0 }),
        Leaf(8, PatchOp::InsertBefore { reference_id: 6, parent_id: 0 }),
        Leaf(9, PatchOp::MountEachItem { tag: "p".to_string(), parent_id: 0 }),
        Node(9, vec![set(0, "Number: 0")]),
        set(2, "Struct A: 10 (Click to update)"),
        set(5, "Struct B: hello"),
        set(11, "Counter plus one: 2"),
        Node(3, vec![set(1, "hello: 0")]),
    ]);
    assert_eq!(patches, expected);
}

#[test]
fn page_click_increments() {
    let mut page = Page::new();
    page.mount_page();
    let patches = page.handle_event("click", vec![1]);
    let each_item = || Leaf(9, PatchOp::MountEachItem { tag: "p".to_string(), parent_id: 0 });
    assert_eq!(
        patches,
        vec![
            set(1, "Count: 2"),
            set(4, "Count: 2"),
            Leaf(8, PatchOp::UnmountTag { parent_id: 0 }),
            Leaf(8, PatchOp::InsertBefore { reference_id: 6, parent_id: 0 }),
            Leaf(0, PatchOp::UnmountEachItem { each_id: 9, parent_id: 0 }),
            each_item(),
            each_item(),
            Node(9, vec![set(0, "Number: 0"), set(1, "Number: 1")]),
            set(11, "Counter plus one: 3"),
        ]
    );
}

#[test]
fn page_struct_click_propagates_to_button() {
    let mut page = Page::new();
    page.mount_page();
    let patches = page.handle_event("click", vec![2]);
    // counter 2, a = 10 + 2, b = "Count is 2"
    assert_eq!(patches.len(), 12);
    assert_eq!(patches[8], set(2, "Struct A: 12 (Click to update)"));
    assert_eq!(patches[9], set(5, "Struct B: Count is 2"));
    assert_eq!(patches[10], set(11, "Counter plus one: 3"));
    assert_eq!(patches[11], Node(3, vec![set(1, "Count is 2: 0")]));
}

#[test]
fn button_binding_sets_parent_counter() {
    let mut page = Page::new();
    page.mount_page();
    // count twice in the button, then "Set parent"
    let p1 = page.handle_event("click", vec![1, 3]);
    assert_eq!(p1, vec![Node(3, vec![set(1, "hello: 1")])]);
    page.handle_event("click", vec![1, 3]);
    let p3 = page.handle_event("click", vec![2, 3]);
    assert_eq!(p3[0], Node(3, vec![set(1, "hello: 2")]));
    assert_eq!(p3[1], set(1, "Count: 2"));
    assert_eq!(p3[2], set(4, "Count: 2"));
}

#[test]
fn page_ignores_other_events() {
    let mut page = Page::new();
    page.mount_page();
    assert_eq!(page.handle_event("input", vec![1]), vec![]);
    assert_eq!(page.handle_event("click", vec![7]), vec![]);
}

#[test]
fn if_block_switches_above_five() {
    let mut page = Page::new();
    page.mount_page();
    for _ in 0..4 {
        page.handle_event("click", vec![1]);
    }
    // counter is 5; the next click makes it 6 and shows the first branch
    let patches = page.handle_event("click", vec![1]);
    assert_eq!(patches[2], Leaf(8, PatchOp::UnmountTag { parent_id: 0 }));
    assert_eq!(patches[3], Leaf(7, PatchOp::InsertBefore { reference_id: 6, parent_id: 0 }));
    let patches = page.handle_event("click", vec![1]);
    assert_eq!(patches[2], Leaf(7, PatchOp::UnmountTag { parent_id: 0 }));
}

#[test]
fn add_sums() {
    assert_eq!(add(2, 5), 7);
}

#[test]
fn state_page_mounts_then_renders() {
    let mut page = StatePage::new();
    let patches = page.mount_page();
    let expected_head = mount_head(button_mount());
    assert_eq!(patches[..18], expected_head[..]);
    assert_eq!(
        patches[18..],
        [
            set(1, "Counter: 1"),
            set(4, "Count: 1"),
            Leaf(8, PatchOp::UnmountTag { parent_id: 0 }),
            Leaf(8, PatchOp::InsertBefore { reference_id: 6, parent_id: 0 }),
            Leaf(9, PatchOp::MountEachItem { tag: "p".to_string(), parent_id: 0 }),
            Node(9, vec![set(0, "Number: 0")]),
            set(2, "Struct A: 10"),
            set(5, "Struct B: hello"),
            set(11, "Counter plus one: 2"),
            Node(3, vec![set(1, "Click me: 0")]),
        ]
    );
}

#[test]
fn state_page_struct_click_reaches_button() {
    let mut page = StatePage::new();
    page.mount_page();
    let patches = page.handle_event("click", vec![2]);
    let last = patches.last().unwrap();
    assert_eq!(*last, Node(3, vec![set(1, "Count is 2: 0")]));
}

#[test]
fn state_page_button_binding() {
    let mut page = StatePage::new();
    page.mount_page();
    let p1 = page.handle_event("click", vec![1, 3]);
    assert_eq!(p1, vec![Node(3, vec![set(1, "Click me: 1")])]);
    let p2 = page.handle_event("click", vec![2, 3]);
    // the counter is set to the button's count (1)
    assert_eq!(p2[0], set(1, "Counter: 1"));
    // the click borrowed the button's counter mutably, so its text is refreshed
    assert_eq!(*p2.last().unwrap(), Node(3, vec![set(1, "Click me: 1")]));
}
