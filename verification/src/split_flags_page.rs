use vstd::prelude::*;
use vstd::string::*;
use crate::dirty::{lemma_all_or_none, lemma_low_bits, lemma_or_bit_keeps, DirtyFlags, MutateTracker};
use crate::patch::{
    append_patches, leaf, listener, mount_tag, node, push_patch, set_content, set_content_patch,
    trees_view, PatchOp, PatchOpView, PatchTreeNode, PatchTreeView,
};
use crate::patch_page::{
    click_listener, each_patches, is_click, render_each, MyStruct,
};
use crate::path::prepend_path;
use crate::routing::str_eq;
use crate::text::{decimal, label_int, label_text, text_colon_int};

verus! {

// ---------------------------------------------------------------------------
// A page rendered as patch trees, with one set of dirty flags per component
// (page: counter 0, struct 1, derived 3; button: text 0, counter 1). Events
// change state and propagate props; rendering happens in a separate pass.
// ---------------------------------------------------------------------------

pub struct ButtonStateView {
    pub text: Seq<char>,
    pub button_counter: i32,
}

/// The child button component's state.
pub struct ButtonState {
    text: String,
    button_counter: MutateTracker<i32>,
}

impl View for ButtonState {
    type V = ButtonStateView;

    closed spec fn view(&self) -> ButtonStateView {
        ButtonStateView { text: self.text@, button_counter: self.button_counter.value() }
    }
}

pub open spec fn button_state_patches(b: ButtonStateView, flags: u64) -> Seq<PatchTreeView> {
    if flags & 3 != 0 {
        seq![set_content(1, b.text + ": "@ + decimal(b.button_counter as int))]
    } else {
        seq![]
    }
}

pub open spec fn button_state_mount_patches(parent_path: Seq<u32>) -> Seq<PatchTreeView> {
    seq![
        leaf(1, PatchOpView::MountTag { tag: "button"@, parent_id: 0 }),
        leaf(2, PatchOpView::MountTag { tag: "button"@, parent_id: 0 }),
        set_content(2, "Set parent"@),
        click_listener(1, parent_path),
        click_listener(2, parent_path),
    ]
}

/// The button after an event, its flags, and the value its bound
/// function prop is called with (if it is).
pub open spec fn button_state_event(b: ButtonStateView, flags: u64, event: Seq<char>, target: u32) -> (
    ButtonStateView,
    u64,
    Option<i32>,
) {
    if is_click(event) && target == 1 {
        (ButtonStateView { button_counter: (b.button_counter + 1) as i32, ..b }, flags | 2, None)
    } else if is_click(event) && target == 2 {
        // the handler borrows the counter mutably, which marks it dirty
        (b, flags | 2, Some(b.button_counter))
    } else {
        (b, flags, None)
    }
}

impl ButtonState {
    pub closed spec fn wf(&self) -> bool {
        self.button_counter.spec_id() == 1
    }

    /// Mount patches of the button.
    pub fn mount(&mut self, parent_path: Vec<u32>) -> (patches: Vec<PatchTreeNode>)
        requires
            parent_path.len() < usize::MAX,
        ensures
            final(self)@ == old(self)@,
            final(self).wf() == old(self).wf(),
            trees_view(patches@) == button_state_mount_patches(parent_path@),
    {
        let mut patches: Vec<PatchTreeNode> = Vec::new();
        push_patch(&mut patches, mount_tag(1, "button", 0));
        push_patch(&mut patches, mount_tag(2, "button", 0));
        push_patch(&mut patches, set_content_patch(2, String::from_str("Set parent")));
        push_patch(&mut patches, listener(1, "click", prepend_path(&parent_path, 1)));
        push_patch(&mut patches, listener(2, "click", prepend_path(&parent_path, 2)));
        proof {
            assert(trees_view(patches@) =~= button_state_mount_patches(parent_path@));
        }
        patches
    }

    /// Handles an event at the last element of `target_path`; returns the
    /// value the bound function prop is called with, if it is.
    pub fn affect(&mut self, event_type: &str, target_path: Vec<u32>, flags: &mut DirtyFlags) -> (call: Option<
        i32,
    >)
        requires
            old(self).wf(),
            target_path.len() > 0,
            is_click(event_type@) && target_path@.last() == 1 ==> old(self)@.button_counter
                < i32::MAX,
        ensures
            final(self).wf(),
            (final(self)@, final(flags)@, call) == button_state_event(
                old(self)@,
                old(flags)@,
                event_type@,
                target_path@.last(),
            ),
    {
        proof {
            lemma_low_bits();
        }
        let mut target_path = target_path;
        let target = target_path.pop().unwrap();
        let click = str_eq(event_type, "click");
        if click && target == 1 {
            let c = self.button_counter.get_mut(flags);
            *c = *c + 1;
            None
        } else if click && target == 2 {
            // the bound function prop gets the counter through a mutable borrow
            let c = self.button_counter.get_mut(flags);
            Some(*c)
        } else {
            None
        }
    }

    /// Patches for the button's dirty parts.
    pub fn apply(&mut self, flags: &DirtyFlags) -> (patches: Vec<PatchTreeNode>)
        ensures
            final(self)@ == old(self)@,
            final(self).wf() == old(self).wf(),
            trees_view(patches@) == button_state_patches(old(self)@, flags@),
    {
        let mut patches: Vec<PatchTreeNode> = Vec::new();
        if flags.load() & 3 != 0 {
            let label = text_colon_int(self.text.as_str(), *self.button_counter.get() as i64);
            push_patch(&mut patches, set_content_patch(1, label));
        }
        proof {
            assert(trees_view(patches@) =~= button_state_patches(old(self)@, flags@));
        }
        patches
    }

    /// Unmounting the button needs no patches.
    pub fn unmount(&mut self) -> (patches: Vec<PatchTreeNode>)
        ensures
            patches@.len() == 0,
    {
        Vec::new()
    }
}


pub struct PageStateView {
    pub counter: i32,
    pub a: i32,
    pub b: Seq<char>,
    pub counter_plus_one: i32,
    pub other_var: i32,
    pub button: ButtonStateView,
    pub fragment1: bool,
    pub fragment2: nat,
    pub page_flags: u64,
    pub button_flags: u64,
}

/// The page component's state, its child's state, and the dirty flags of both.
pub struct Page {
    counter: MutateTracker<i32>,
    my_struct: MutateTracker<MyStruct>,
    counter_plus_one: i32,
    /// Non-reactive state.
    other_var: i32,
    button_1: ButtonState,
    fragment1: bool,
    fragment2: usize,
    page_flags: DirtyFlags,
    button_flags: DirtyFlags,
}

impl View for Page {
    type V = PageStateView;

    closed spec fn view(&self) -> PageStateView {
        PageStateView {
            counter: self.counter.value(),
            a: self.my_struct.value().a,
            b: self.my_struct.value().b@,
            counter_plus_one: self.counter_plus_one,
            other_var: self.other_var,
            button: self.button_1@,
            fragment1: self.fragment1,
            fragment2: self.fragment2 as nat,
            page_flags: self.page_flags@,
            button_flags: self.button_flags@,
        }
    }
}

pub open spec fn state_counter_patches(p: PageStateView) -> Seq<PatchTreeView> {
    seq![
        set_content(1, "Counter: "@ + decimal(p.counter as int)),
        set_content(4, "Count: "@ + decimal(p.counter as int)),
        if p.fragment1 {
            leaf(7, PatchOpView::UnmountTag { parent_id: 0 })
        } else {
            leaf(8, PatchOpView::UnmountTag { parent_id: 0 })
        },
        if p.counter > 5 {
            leaf(7, PatchOpView::InsertBefore { reference_id: 6, parent_id: 0 })
        } else {
            leaf(8, PatchOpView::InsertBefore { reference_id: 6, parent_id: 0 })
        },
    ] + each_patches(p.counter, p.fragment2)
}

/// The render pass: patches for what the page's flags mark dirty, then the
/// button's patches; the #if and #each bookkeeping follows the counter.
pub open spec fn state_apply(p: PageStateView) -> (PageStateView, Seq<PatchTreeView>) {
    let f = p.page_flags;
    let counter_dirty = f & 1 != 0;
    let n = if p.counter > 0 {
        p.counter as nat
    } else {
        0
    };
    let patches = (if counter_dirty {
        state_counter_patches(p)
    } else {
        seq![]
    }) + (if f & 2 != 0 {
        seq![
            set_content(2, "Struct A: "@ + decimal(p.a as int)),
            set_content(5, "Struct B: "@ + p.b),
        ]
    } else {
        seq![]
    }) + (if f & 8 != 0 {
        seq![set_content(11, "Counter plus one: "@ + decimal(p.counter_plus_one as int))]
    } else {
        seq![]
    }) + seq![PatchTreeView::Node(3, button_state_patches(p.button, p.button_flags))];
    (
        PageStateView {
            fragment1: if counter_dirty {
                p.counter > 5
            } else {
                p.fragment1
            },
            fragment2: if counter_dirty && n != p.fragment2 {
                n
            } else {
                p.fragment2
            },
            ..p
        },
        patches,
    )
}

pub open spec fn state_incremented(p: PageStateView) -> PageStateView {
    PageStateView { counter: (p.counter + 1) as i32, page_flags: p.page_flags | 1, ..p }
}

pub open spec fn state_struct_updated(p: PageStateView) -> PageStateView {
    let q = state_incremented(p);
    PageStateView {
        a: (q.a + q.counter) as i32,
        b: "Count is "@ + decimal(q.counter as int),
        page_flags: q.page_flags | 2,
        ..q
    }
}

/// After an event: the derived value follows a changed counter and a changed
/// struct flows down into the button's text prop.
pub open spec fn derive_and_propagate(q: PageStateView) -> PageStateView {
    let counter_dirty = q.page_flags & 1 != 0;
    let pf = if counter_dirty {
        q.page_flags | 8
    } else {
        q.page_flags
    };
    let cpo = if counter_dirty {
        (q.counter + 1) as i32
    } else {
        q.counter_plus_one
    };
    if pf & 2 != 0 {
        PageStateView {
            counter_plus_one: cpo,
            page_flags: pf,
            button: ButtonStateView { text: q.b, ..q.button },
            button_flags: q.button_flags | 1,
            ..q
        }
    } else {
        PageStateView { counter_plus_one: cpo, page_flags: pf, ..q }
    }
}

/// The handler's effect on the state, before deriving and propagating.
pub open spec fn state_event(p: PageStateView, event: Seq<char>, path: Seq<u32>) -> PageStateView {
    let target = path.last();
    let rest = path.drop_last();
    if is_click(event) && target == 1 {
        state_incremented(p)
    } else if is_click(event) && target == 2 {
        state_struct_updated(p)
    } else if target == 3 {
        let (b2, bf2, call) = button_state_event(p.button, p.button_flags, event, rest.last());
        match call {
            Some(v) => PageStateView {
                counter: v,
                page_flags: p.page_flags | 1,
                button: b2,
                button_flags: bf2,
                ..p
            },
            None => PageStateView { button: b2, button_flags: bf2, ..p },
        }
    } else {
        p
    }
}

pub open spec fn state_affect(p: PageStateView, event: Seq<char>, path: Seq<u32>) -> PageStateView {
    derive_and_propagate(state_event(p, event, path))
}

pub open spec fn state_affect_ok(p: PageStateView, event: Seq<char>, path: Seq<u32>) -> bool {
    let target = path.last();
    let rest = path.drop_last();
    let q = state_event(p, event, path);
    &&& path.len() > 0
    &&& is_click(event) && target == 1 ==> p.counter + 6 <= i32::MAX
    &&& is_click(event) && target == 2 ==> p.counter + 6 <= i32::MAX && i32::MIN <= p.a + p.counter
        + 1 <= i32::MAX
    &&& !(is_click(event) && (target == 1 || target == 2)) && target == 3 ==> rest.len() > 0 && (
    is_click(event) && rest.last() == 1 ==> p.button.button_counter < i32::MAX)
    &&& q.page_flags & 1 != 0 ==> q.counter < i32::MAX
}

pub open spec fn state_mount_patches(parent_path: Seq<u32>) -> Seq<PatchTreeView> {
    seq![
        leaf(0, PatchOpView::MountPage { tag: "div"@ }),
        leaf(1, PatchOpView::MountTag { tag: "button"@, parent_id: 0 }),
        leaf(2, PatchOpView::MountTag { tag: "button"@, parent_id: 0 }),
        leaf(3, PatchOpView::MountFragment { tag: "div"@, parent_id: 0 }),
        PatchTreeView::Node(3, button_state_mount_patches(seq![3u32] + parent_path)),
        leaf(4, PatchOpView::MountTag { tag: "p"@, parent_id: 0 }),
        leaf(5, PatchOpView::MountTag { tag: "p"@, parent_id: 0 }),
        leaf(6, PatchOpView::MountComment { parent_id: 0 }),
        leaf(7, PatchOpView::AddToMap { tag: "p"@ }),
        set_content(7, "Counter is greater than 5!"@),
        leaf(8, PatchOpView::AddToMap { tag: "p"@ }),
        set_content(8, "Counter is 5 or less."@),
        leaf(8, PatchOpView::InsertBefore { reference_id: 6, parent_id: 0 }),
        leaf(9, PatchOpView::MountEachFragment),
        leaf(10, PatchOpView::MountTag { tag: "div"@, parent_id: 0 }),
        leaf(11, PatchOpView::MountTag { tag: "p"@, parent_id: 10 }),
        click_listener(1, parent_path),
        click_listener(2, parent_path),
    ]
}

/// The page's state after its mount: the user init code counted one and
/// bumped the non-reactive variable, and the derived value is computed.
pub open spec fn state_mounted(p: PageStateView) -> PageStateView {
    PageStateView {
        counter: (p.counter + 1) as i32,
        other_var: (p.other_var + 1) as i32,
        counter_plus_one: (p.counter + 2) as i32,
        page_flags: p.page_flags | 1,
        ..p
    }
}

/// The page state that the application starts from.
pub open spec fn initial_state() -> PageStateView {
    PageStateView {
        counter: 0,
        a: 10,
        b: "hello"@,
        counter_plus_one: 1,
        other_var: 42,
        button: ButtonStateView { text: "Click me"@, button_counter: 0 },
        fragment1: false,
        fragment2: 0,
        page_flags: 0,
        button_flags: 0,
    }
}

impl Page {
    pub closed spec fn wf(&self) -> bool {
        &&& self.counter.spec_id() == 0
        &&& self.my_struct.spec_id() == 1
        &&& self.button_1.wf()
        &&& self.fragment2 <= i32::MAX
    }

    /// The initial global state of the page.
    pub fn new() -> (page: Self)
        ensures
            page.wf(),
            page@ == initial_state(),
    {
        Page {
            counter: MutateTracker::new(0, 0),
            my_struct: MutateTracker::new(MyStruct { a: 10, b: String::from_str("hello") }, 1),
            counter_plus_one: 1,
            other_var: 42,
            button_1: ButtonState {
                text: String::from_str("Click me"),
                button_counter: MutateTracker::new(0, 1),
            },
            fragment1: false,
            fragment2: 0,
            page_flags: DirtyFlags::new(),
            button_flags: DirtyFlags::new(),
        }
    }

    /// Runs the user init code, computes the derived value, and returns the
    /// mount patches.
    pub fn mount(&mut self, parent_path: Vec<u32>) -> (patches: Vec<PatchTreeNode>)
        requires
            old(self).wf(),
            old(self)@.counter + 2 <= i32::MAX,
            old(self)@.other_var < i32::MAX,
            parent_path.len() < usize::MAX - 1,
        ensures
            final(self).wf(),
            final(self)@ == state_mounted(old(self)@),
            trees_view(patches@) == state_mount_patches(parent_path@),
    {
        proof {
            lemma_low_bits();
        }
        // user init code
        let c = self.counter.get_mut(&mut self.page_flags);
        *c = *c + 1;
        self.other_var = self.other_var + 1;
        // first derive
        self.counter_plus_one = *self.counter.get() + 1;
        let mut patches: Vec<PatchTreeNode> = Vec::new();
        push_patch(&mut patches, PatchTreeNode::Leaf(0, PatchOp::MountPage { tag: String::from_str("div") }));
        push_patch(&mut patches, mount_tag(1, "button", 0));
        push_patch(&mut patches, mount_tag(2, "button", 0));
        push_patch(
            &mut patches,
            PatchTreeNode::Leaf(3, PatchOp::MountFragment { tag: String::from_str("div"), parent_id: 0 }),
        );
        let button_patches = self.button_1.mount(prepend_path(&parent_path, 3));
        push_patch(&mut patches, node(3, button_patches));
        push_patch(&mut patches, mount_tag(4, "p", 0));
        push_patch(&mut patches, mount_tag(5, "p", 0));
        push_patch(&mut patches, PatchTreeNode::Leaf(6, PatchOp::MountComment { parent_id: 0 }));
        push_patch(&mut patches, PatchTreeNode::Leaf(7, PatchOp::AddToMap { tag: String::from_str("p") }));
        push_patch(&mut patches, set_content_patch(7, String::from_str("Counter is greater than 5!")));
        push_patch(&mut patches, PatchTreeNode::Leaf(8, PatchOp::AddToMap { tag: String::from_str("p") }));
        push_patch(&mut patches, set_content_patch(8, String::from_str("Counter is 5 or less.")));
        push_patch(
            &mut patches,
            PatchTreeNode::Leaf(8, PatchOp::InsertBefore { reference_id: 6, parent_id: 0 }),
        );
        push_patch(&mut patches, PatchTreeNode::Leaf(9, PatchOp::MountEachFragment));
        push_patch(&mut patches, mount_tag(10, "div", 0));
        push_patch(&mut patches, mount_tag(11, "p", 10));
        push_patch(&mut patches, listener(1, "click", prepend_path(&parent_path, 1)));
        push_patch(&mut patches, listener(2, "click", prepend_path(&parent_path, 2)));
        proof {
            assert(seq![1u32] + (seq![3u32] + parent_path@) =~= seq![1u32, 3u32] + parent_path@);
            assert(seq![2u32] + (seq![3u32] + parent_path@) =~= seq![2u32, 3u32] + parent_path@);
            assert(trees_view(patches@) =~= state_mount_patches(parent_path@));
        }
        patches
    }

    /// Handles an event: runs the handler (an event in the button is passed
    /// down, and a call of its bound function prop sets the counter), then
    /// derives and propagates changed props to the button.
    pub fn affect(&mut self, event_type: &str, target_path: Vec<u32>)
        requires
            old(self).wf(),
            state_affect_ok(old(self)@, event_type@, target_path@),
        ensures
            final(self).wf(),
            final(self)@ == state_affect(old(self)@, event_type@, target_path@),
    {
        proof {
            lemma_low_bits();
        }
        let ghost p = self@;
        let ghost path = target_path@;
        let mut target_path = target_path;
        let target = target_path.pop().unwrap();
        let click = str_eq(event_type, "click");
        if click && target == 1 {
            self.increment();
        } else if click && target == 2 {
            self.update_struct();
        } else if target == 3 {
            let call = self.button_1.affect(event_type, target_path, &mut self.button_flags);
            match call {
                Some(new_val) => {
                    let c = self.counter.get_mut(&mut self.page_flags);
                    *c = new_val;
                },
                None => {},
            }
        }
        proof {
            assert(self@ == state_event(p, event_type@, path));
        }
        // update derived
        if self.page_flags.load() & 1 != 0 {
            self.counter_plus_one = *self.counter.get() + 1;
            self.page_flags.fetch_or(8);
        }
        proof {
            lemma_or_bit_keeps(state_event(p, event_type@, path).page_flags, 8, 2);
        }
        // propagate to the child
        if self.page_flags.load() & 2 != 0 {
            self.button_1.text = self.my_struct.get().b.clone();
            self.button_flags.fetch_or(1);
        }
    }

    fn increment(&mut self)
        requires
            old(self).wf(),
            old(self)@.counter + 6 <= i32::MAX,
        ensures
            final(self).wf(),
            final(self)@ == state_incremented(old(self)@),
    {
        proof {
            lemma_low_bits();
        }
        let c = self.counter.get_mut(&mut self.page_flags);
        *c = *c + 1;
        crate::patch_page::add(*self.counter.get(), 5);
    }

    fn update_struct(&mut self)
        requires
            old(self).wf(),
            old(self)@.counter + 6 <= i32::MAX,
            i32::MIN <= old(self)@.a + old(self)@.counter + 1 <= i32::MAX,
        ensures
            final(self).wf(),
            final(self)@ == state_struct_updated(old(self)@),
    {
        proof {
            lemma_low_bits();
        }
        self.increment();
        let c = *self.counter.get();
        let s = self.my_struct.get_mut(&mut self.page_flags);
        s.a = s.a + c;
        let text = label_int("Count is ", c as i64);
        let s = self.my_struct.get_mut(&mut self.page_flags);
        s.b = text;
        proof {
            let f: u64 = old(self)@.page_flags | 1;
            assert((f | 2) | 2 == f | 2) by (bit_vector);
        }
    }

    /// The render pass: patches for the dirty parts of the page and of the button.
    pub fn apply(&mut self) -> (patches: Vec<PatchTreeNode>)
        requires
            old(self).wf(),
        ensures
            final(self).wf(),
            (final(self)@, trees_view(patches@)) == state_apply(old(self)@),
    {
        let ghost p = self@;
        let mut patches: Vec<PatchTreeNode> = Vec::new();
        if self.page_flags.load() & 1 != 0 {
            let c = *self.counter.get();
            push_patch(&mut patches, set_content_patch(1, label_int("Counter: ", c as i64)));
            push_patch(&mut patches, set_content_patch(4, label_int("Count: ", c as i64)));
            if self.fragment1 {
                push_patch(&mut patches, PatchTreeNode::Leaf(7, PatchOp::UnmountTag { parent_id: 0 }));
            } else {
                push_patch(&mut patches, PatchTreeNode::Leaf(8, PatchOp::UnmountTag { parent_id: 0 }));
            }
            self.fragment1 = c > 5;
            if self.fragment1 {
                push_patch(
                    &mut patches,
                    PatchTreeNode::Leaf(7, PatchOp::InsertBefore { reference_id: 6, parent_id: 0 }),
                );
            } else {
                push_patch(
                    &mut patches,
                    PatchTreeNode::Leaf(8, PatchOp::InsertBefore { reference_id: 6, parent_id: 0 }),
                );
            }
            let each = render_each(c, self.fragment2);
            append_patches(&mut patches, each);
            let n: usize = if c > 0 { c as usize } else { 0 };
            if n != self.fragment2 {
                self.fragment2 = n;
            }
            proof {
                assert(trees_view(patches@) =~= state_counter_patches(p));
            }
        }
        let ghost after_counter = trees_view(patches@);
        if self.page_flags.load() & 2 != 0 {
            let a = self.my_struct.get().a;
            push_patch(&mut patches, set_content_patch(2, label_int("Struct A: ", a as i64)));
            push_patch(
                &mut patches,
                set_content_patch(5, label_text("Struct B: ", self.my_struct.get().b.as_str())),
            );
        }
        if self.page_flags.load() & 8 != 0 {
            push_patch(
                &mut patches,
                set_content_patch(11, label_int("Counter plus one: ", self.counter_plus_one as i64)),
            );
        }
        let child = self.button_1.apply(&self.button_flags);
        push_patch(&mut patches, node(3, child));
        proof {
            let (v, ps) = state_apply(p);
            assert(self@ == v);
            assert(trees_view(patches@) =~= ps);
        }
        patches
    }

    /// The page's entry for an event: clears both components' flags, handles
    /// the event, and renders.
    pub fn handle_event(&mut self, event_type: &str, target: Vec<u32>) -> (patches: Vec<
        PatchTreeNode,
    >)
        requires
            old(self).wf(),
            state_affect_ok(
                PageStateView { page_flags: 0, button_flags: 0, ..old(self)@ },
                event_type@,
                target@,
            ),
        ensures
            final(self).wf(),
            (final(self)@, trees_view(patches@)) == state_apply(
                state_affect(
                    PageStateView { page_flags: 0, button_flags: 0, ..old(self)@ },
                    event_type@,
                    target@,
                ),
            ),
    {
        self.page_flags.store(0);
        self.button_flags.store(0);
        self.affect(event_type, target);
        self.apply()
    }

    /// The page's entry for the first render: marks everything dirty, mounts
    /// at the root, and renders.
    pub fn mount_page(&mut self) -> (patches: Vec<PatchTreeNode>)
        requires
            old(self).wf(),
            old(self)@.counter + 2 <= i32::MAX,
            old(self)@.other_var < i32::MAX,
        ensures
            final(self).wf(),
            ({
                let m = state_mounted(
                    PageStateView { page_flags: u64::MAX, button_flags: u64::MAX, ..old(self)@ },
                );
                let (r, ps) = state_apply(m);
                final(self)@ == r && trees_view(patches@) == state_mount_patches(Seq::empty()) + ps
            }),
    {
        self.page_flags.store(u64::MAX);
        self.button_flags.store(u64::MAX);
        let mut patches = self.mount(Vec::new());
        let rendered = self.apply();
        append_patches(&mut patches, rendered);
        patches
    }
}


/// After an event, a changed counter has its derived value recomputed, and a
/// changed struct has reached the button's text prop, marked dirty there.
pub proof fn law_affect_derives_and_propagates(p: PageStateView, event: Seq<char>, path: Seq<u32>)
    requires
        state_event(p, event, path).page_flags & 1 != 0 ==> state_event(p, event, path).counter
            < i32::MAX,
    ensures
        ({
            let q = state_event(p, event, path);
            let r = state_affect(p, event, path);
            &&& q.page_flags & 1 != 0 ==> r.counter_plus_one == q.counter + 1
            &&& q.page_flags & 2 != 0 ==> r.button.text == q.b && r.button_flags & 1 != 0
            &&& r.counter == q.counter && r.a == q.a && r.b == q.b
        }),
{
    let q = state_event(p, event, path);
    let f = q.page_flags;
    let bf = q.button_flags;
    assert((f & 2 != 0) ==> ((f | 8) & 2 != 0)) by (bit_vector);
    assert((bf | 1) & 1 != 0) by (bit_vector);
}


impl Page {
    /// Whether `handle_event` can process this event without an arithmetic
    /// overflow and with the target path it needs.
    pub fn can_handle_event(&self, event_type: &str, target: &Vec<u32>) -> (ok: bool)
        requires
            self.wf(),
        ensures
            ok == state_affect_ok(
                PageStateView { page_flags: 0, button_flags: 0, ..self@ },
                event_type@,
                target@,
            ),
    {
        let ghost p0 = PageStateView { page_flags: 0, button_flags: 0, ..self@ };
        proof {
            assert((0u64 | 1) & 1 != 0) by (bit_vector);
            assert(((0u64 | 1) | 2) & 1 != 0) by (bit_vector);
            assert(0u64 & 1 == 0) by (bit_vector);
        }
        if target.len() == 0 {
            return false;
        }
        let t = target[target.len() - 1];
        let click = str_eq(event_type, "click");
        let c = *self.counter.get();
        let bc = *self.button_1.button_counter.get();
        proof {
            assert(target@.last() == t);
        }
        if click && t == 1 {
            c <= i32::MAX - 6
        } else if click && t == 2 {
            let a = self.my_struct.get().a;
            let ok = c <= i32::MAX - 6 && (a as i64) + (c as i64) + 1 <= i32::MAX as i64 && (a as i64)
                + (c as i64) + 1 >= i32::MIN as i64;
            proof {
                if ok {
                    assert(state_incremented(p0).counter == c + 1);
                }
            }
            ok
        } else if t == 3 {
            if target.len() < 2 {
                return false;
            }
            let inner = target[target.len() - 2];
            proof {
                assert(target@.drop_last().last() == inner);
            }
            if click && (inner == 1 || inner == 2) {
                bc < i32::MAX
            } else {
                true
            }
        } else {
            true
        }
    }

    /// Whether `mount_page` can run without an arithmetic overflow.
    pub fn can_mount(&self) -> (ok: bool)
        ensures
            ok == (self@.counter + 2 <= i32::MAX && self@.other_var < i32::MAX),
    {
        *self.counter.get() <= i32::MAX - 2 && self.other_var < i32::MAX
    }
}


/// A click on the page's second button counts one, adds the new count to the
/// struct's `a`, and the render shows the new `a`.
pub proof fn law_state_struct_click_adds_counter(p: PageStateView, path: Seq<u32>)
    requires
        path.len() > 0,
        path.last() == 2,
        p.counter + 1 <= i32::MAX,
        i32::MIN <= p.a + p.counter + 1 <= i32::MAX,
    ensures
        state_affect(p, "click"@, path).counter == p.counter + 1,
        state_affect(p, "click"@, path).a == p.a + p.counter + 1,
        state_apply(state_affect(p, "click"@, path)).1.contains(
            set_content(2, "Struct A: "@ + decimal(p.a + p.counter + 1)),
        ),
{
    let f = p.page_flags;
    lemma_or_bit_keeps(f, 1, 2);
    lemma_or_bit_keeps(f | 1, 2, 1);
    lemma_or_bit_keeps((f | 1) | 2, 8, 1);
    lemma_or_bit_keeps((f | 1) | 2, 8, 2);
    let q = state_affect(p, "click"@, path);
    let pre = state_counter_patches(q);
    let patches = state_apply(q).1;
    assert(patches[pre.len() as int] == set_content(2, "Struct A: "@ + decimal(q.a as int)));
}

/// "Set parent" in the button (path `[2, 3]`) passes the button's count to
/// the page through the bound function prop: the counter becomes the
/// button's count, and the render's first patch shows it.
pub proof fn law_state_set_parent_sets_counter(p: PageStateView, path: Seq<u32>)
    requires
        path.len() >= 2,
        path.last() == 3,
        path.drop_last().last() == 2,
    ensures
        state_affect(p, "click"@, path).counter == p.button.button_counter,
        state_apply(state_affect(p, "click"@, path)).1[0] == set_content(
            1,
            "Counter: "@ + decimal(p.button.button_counter as int),
        ),
{
    let f = p.page_flags;
    lemma_or_bit_keeps(f, 1, 8);
    lemma_or_bit_keeps(f | 1, 8, 1);
}

/// A render with the counter dirty shows the #if block's first branch
/// (element 7, "Counter is greater than 5!") exactly when the counter is
/// above 5, and the second (element 8) otherwise.
pub proof fn law_state_if_follows_counter(p: PageStateView)
    requires
        p.page_flags & 1 != 0,
    ensures
        state_apply(p).1[3] == (if p.counter > 5 {
            leaf(7, PatchOpView::InsertBefore { reference_id: 6, parent_id: 0 })
        } else {
            leaf(8, PatchOpView::InsertBefore { reference_id: 6, parent_id: 0 })
        }),
        state_apply(p).0.fragment1 == (p.counter > 5),
{
}

} // verus!
