use rsvelte::components::{
    init_props, scoped_each_items, snippet_greeting, switcher_each_items, update_props, ButtonState,
    TopRouterState,
};
use rsvelte::dirty::DirtyFlags;
use rsvelte::dom_page::{each_frag_1_update, each_items, if_branch, DomButton, DomPage};

#[test]
fn dom_page_initial_render() {
    let (page, button_html, r) = DomPage::new();
    assert_eq!(button_html, Some(": 0".to_string()));
    assert_eq!(page.active_branch(), 1);
    assert_eq!(page.each_items(), &vec![0]);
    assert_eq!(r.counter_html, Some(("Counter: 1".to_string(), "Count: 1".to_string())));
    assert_eq!(r.if_update.swap_to, None);
    assert_eq!(r.if_update.refresh_text, None);
    assert_eq!(r.each_items, Some(vec![0]));
    assert_eq!(
        r.struct_html,
        Some(("Struct A: 10 (Click to update)".to_string(), "Struct B: hello".to_string()))
    );
    assert_eq!(r.plus_one_html, Some("Counter plus one: 2".to_string()));
    assert_eq!(r.button_html, Some("hello: 0".to_string()));
}

#[test]
fn dom_page_click_and_branch_swap() {
    let (mut page, _, _) = DomPage::new();
    for _ in 0..4 {
        page.proc("click", vec![1]);
    }
    let (child, r) = page.proc("click", vec![1]);
    assert_eq!(child, None);
    assert_eq!(r.if_update.swap_to, Some(0));
    assert_eq!(page.active_branch(), 0);
    assert_eq!(r.each_items, Some(vec![0, 1, 2, 3, 4, 5]));
    // the flags stay all dirty after the first render, so the struct is rendered again
    assert!(r.struct_html.is_some());
}

#[test]
fn dom_page_each_item_click_sets_counter() {
    let (mut page, _, _) = DomPage::new();
    page.proc("click", vec![1]);
    page.proc("click", vec![1]);
    // items 0..3; click the element 1 of item 2
    let (_, r) = page.proc("click", vec![1, 2, 6]);
    assert_eq!(r.counter_html, Some(("Counter: 2".to_string(), "Count: 2".to_string())));
}

#[test]
fn dom_page_button_binding() {
    let (mut page, _, _) = DomPage::new();
    let (child, _) = page.proc("click", vec![1, 3]);
    assert_eq!(child, Some("hello: 1".to_string()));
    let (child, r) = page.proc("click", vec![2, 3]);
    assert_eq!(child, Some("hello: 1".to_string()));
    assert_eq!(r.counter_html, Some(("Counter: 1".to_string(), "Count: 1".to_string())));
}

#[test]
fn dom_helpers() {
    assert_eq!(if_branch(6), 0);
    assert_eq!(if_branch(5), 1);
    assert_eq!(each_items(3), vec![0, 1, 2]);
    assert_eq!(each_items(-2), Vec::<i32>::new());
    let mut flags = DirtyFlags::new();
    let (b, html) = DomButton::new(&mut flags);
    assert_eq!(html, Some(": 0".to_string()));
    assert_eq!(b.func_call(), 0);
    assert_eq!(flags.load(), u64::MAX);
    let (page, _, _) = DomPage::new();
    let _ = each_frag_1_update;
    assert_eq!(page.each_items().len(), 1);
}

#[test]
fn button_component_events() {
    let mut s = ButtonState::new(("Click me".to_string(),));
    let mut flags = DirtyFlags::new();
    s.proc("click", vec![1], &mut flags);
    assert_eq!(s.button_counter(), 1);
    assert_eq!(flags.load(), 1);
    assert_eq!(s.update_html(flags.load()), Some("Click me: 1".to_string()));
    s.proc("click", vec![2], &mut flags);
    assert_eq!(s.func_call, 1);
    assert_eq!(flags.load(), 3);
    flags.store(0);
    s.proc("click", vec![3], &mut flags);
    assert_eq!(flags.load(), 0);
    assert_eq!(s.update_html(0), None);
    assert_eq!(s.label(), "Click me: 1");
}

#[test]
fn snippet_props_follow_masks() {
    let state = ButtonState::new(("hi".to_string(),));
    let closures = (|s: &ButtonState| s.button_counter() + 10, |s: &ButtonState| s.text.clone());
    let mut props = init_props(&state, &closures);
    assert_eq!(props, (10, "hi".to_string()));
    props = (0, String::new());
    let mut flags: u64 = 1;
    update_props(&mut props, &state, &closures, (1, 2), &mut flags);
    assert_eq!(props, (10, String::new()));
    assert_eq!(flags, 1 | 8);
    let mut flags: u64 = 2;
    update_props(&mut props, &state, &closures, (1, 2), &mut flags);
    assert_eq!(props, (10, "hi".to_string()));
    assert_eq!(flags, 2 | 16);
    // recomputed to the same values: nothing is marked
    let mut flags: u64 = 3;
    update_props(&mut props, &state, &closures, (1, 2), &mut flags);
    assert_eq!(props, (10, "hi".to_string()));
    assert_eq!(flags, 3);
    assert_eq!(snippet_greeting("hi", 8), Some("Hello, hi!".to_string()));
    assert_eq!(snippet_greeting("hi", 1), None);
}

#[test]
fn each_generators() {
    assert_eq!(switcher_each_items(1), Some(vec![0, 1, 2, 3, 4]));
    assert_eq!(switcher_each_items(2), None);
    assert_eq!(scoped_each_items(0), Some(vec![0, 1, 2, 3, 4]));
    let _ = TopRouterState {};
}
