use vstd::prelude::*;
use vstd::string::*;
use crate::dirty::{lemma_all_or_none, lemma_low_bits, lemma_or_bit_keeps, DirtyFlags, MutateTracker};
use crate::patch::{
    append_patches, leaf, listener, mount_tag, node, push_patch, set_content, set_content_patch,
    trees_view, PatchOp, PatchOpView, PatchTreeNode, PatchTreeView,
};
use crate::path::prepend_path;
use crate::routing::str_eq;
use crate::text::{decimal, label_int, label_int_suffix, label_text, text_colon_int};

verus! {

// ---------------------------------------------------------------------------
// A page rendered as patch trees: a counter with an #if and an #each block,
// a struct shown in two paragraphs, a derived value, and a child button
// component whose "Set parent" button is bound back to the counter.
//
// State variable ids: page counter 0, page struct 1, derived counter+1 3;
// button counter 0, button bound call 1. Page and button share one set of
// dirty flags; the page saves and restores it around its child.
// ---------------------------------------------------------------------------

pub struct MyStruct {
    pub a: i32,
    pub b: String,
}

pub struct ButtonView {
    pub text: Seq<char>,
    pub func_call: i32,
    pub button_counter: i32,
}

/// The child button component's state.
pub struct Button {
    text: String,
    func_call: MutateTracker<i32>,
    button_counter: MutateTracker<i32>,
}

impl View for Button {
    type V = ButtonView;

    closed spec fn view(&self) -> ButtonView {
        ButtonView {
            text: self.text@,
            func_call: self.func_call.value(),
            button_counter: self.button_counter.value(),
        }
    }
}

pub open spec fn is_click(event: Seq<char>) -> bool {
    event == "click"@
}

pub open spec fn button_label(b: ButtonView) -> Seq<char> {
    b.text + ": "@ + decimal(b.button_counter as int)
}

/// The button's patches for the given dirty flags.
pub open spec fn button_apply_patches(b: ButtonView, flags: u64) -> Seq<PatchTreeView> {
    if flags & 3 != 0 {
        seq![set_content(1, button_label(b))]
    } else {
        seq![]
    }
}

pub open spec fn click_listener(id: u32, parent_path: Seq<u32>) -> PatchTreeView {
    leaf(
        id,
        PatchOpView::MountEventListener {
            event_type: "click"@,
            target_id_path: seq![id] + parent_path,
        },
    )
}

/// The button's mount patches, followed by its first render.
pub open spec fn button_mount_patches(b: ButtonView, parent_path: Seq<u32>) -> Seq<PatchTreeView> {
    seq![
        leaf(1, PatchOpView::MountTag { tag: "button"@, parent_id: 0 }),
        leaf(2, PatchOpView::MountTag { tag: "button"@, parent_id: 0 }),
        set_content(2, "Set parent"@),
        click_listener(1, parent_path),
        click_listener(2, parent_path),
        set_content(1, button_label(b)),
    ]
}

/// The button's state and flags after an event at `target`.
pub open spec fn button_event(b: ButtonView, flags: u64, event: Seq<char>, target: u32) -> (
    ButtonView,
    u64,
) {
    if is_click(event) && target == 1 {
        (ButtonView { button_counter: (b.button_counter + 1) as i32, ..b }, flags | 1)
    } else if is_click(event) && target == 2 {
        (ButtonView { func_call: b.button_counter, ..b }, flags | 2)
    } else {
        (b, flags)
    }
}

/// The event does not overflow the button's counter.
pub open spec fn button_event_ok(b: ButtonView, event: Seq<char>, target: u32) -> bool {
    is_click(event) && target == 1 ==> b.button_counter < i32::MAX
}

impl Button {
    pub closed spec fn wf(&self) -> bool {
        self.func_call.spec_id() == 1 && self.button_counter.spec_id() == 0
    }

    /// Renders the button's dirty parts; the flags are left as they were.
    pub fn apply(&mut self, flag_exclude: u64, flags: &mut DirtyFlags) -> (patches: Vec<
        PatchTreeNode,
    >)
        requires
            old(self).wf(),
        ensures
            final(self).wf(),
            final(self)@ == old(self)@,
            final(flags)@ == old(flags)@,
            trees_view(patches@) == button_apply_patches(old(self)@, old(flags)@),
    {
        let mut patches: Vec<PatchTreeNode> = Vec::new();
        if flags.load() & 3 != 0 {
            let label = text_colon_int(self.text.as_str(), *self.button_counter.get() as i64);
            push_patch(&mut patches, set_content_patch(1, label));
        }
        let snapshot = flags.load();
        flags.fetch_and(!flag_exclude);
        flags.store(snapshot);
        proof {
            assert(trees_view(patches@) =~= button_apply_patches(old(self)@, old(flags)@));
        }
        patches
    }

    /// Handles an event whose innermost target is the last element of
    /// `target_path`, then renders.
    pub fn proc(&mut self, event_type: &str, target_path: Vec<u32>, flags: &mut DirtyFlags) -> (patches: Vec<
        PatchTreeNode,
    >)
        requires
            old(self).wf(),
            target_path.len() > 0,
            button_event_ok(old(self)@, event_type@, target_path@.last()),
        ensures
            final(self).wf(),
            (final(self)@, final(flags)@) == button_event(
                old(self)@,
                old(flags)@,
                event_type@,
                target_path@.last(),
            ),
            trees_view(patches@) == button_apply_patches(final(self)@, final(flags)@),
    {
        proof {
            lemma_low_bits();
        }
        let mut target_path = target_path;
        let target = target_path.pop().unwrap();
        let click = str_eq(event_type, "click");
        if click && target == 1 {
            let c = self.button_counter.get_mut(flags);
            *c = *c + 1;
        } else if click && target == 2 {
            let v = *self.button_counter.get();
            let f = self.func_call.get_mut(flags);
            *f = v;
        }
        self.apply(0, flags)
    }

    /// Mount patches; marks every variable dirty and renders.
    pub fn mount(&mut self, parent_path: Vec<u32>, flags: &mut DirtyFlags) -> (patches: Vec<
        PatchTreeNode,
    >)
        requires
            old(self).wf(),
            parent_path.len() < usize::MAX,
        ensures
            final(self).wf(),
            final(self)@ == old(self)@,
            final(flags)@ == u64::MAX,
            trees_view(patches@) == button_mount_patches(old(self)@, parent_path@),
    {
        let mut patches: Vec<PatchTreeNode> = Vec::new();
        push_patch(&mut patches, mount_tag(1, "button", 0));
        push_patch(&mut patches, mount_tag(2, "button", 0));
        push_patch(&mut patches, set_content_patch(2, String::from_str("Set parent")));
        push_patch(&mut patches, listener(1, "click", prepend_path(&parent_path, 1)));
        push_patch(&mut patches, listener(2, "click", prepend_path(&parent_path, 2)));
        flags.store(u64::MAX);
        proof {
            lemma_all_or_none(3);
        }
        let rendered = self.apply(u64::MAX, flags);
        append_patches(&mut patches, rendered);
        proof {
            assert(trees_view(patches@) =~= button_mount_patches(old(self)@, parent_path@));
        }
        patches
    }
}


pub struct PageView {
    pub counter: i32,
    pub a: i32,
    pub b: Seq<char>,
    pub counter_plus_one: i32,
    pub button: ButtonView,
    pub fragment1: bool,
    pub fragment2: nat,
    pub flags: u64,
}

/// The page component: its state, its child button, and the dirty flags
/// shared by both.
pub struct Page {
    counter: MutateTracker<i32>,
    my_struct: MutateTracker<MyStruct>,
    counter_plus_one: i32,
    button_1: Button,
    /// Whether the #if block shows its first branch.
    fragment1: bool,
    /// Number of items the #each block shows.
    fragment2: usize,
    flags: DirtyFlags,
}

impl View for Page {
    type V = PageView;

    closed spec fn view(&self) -> PageView {
        PageView {
            counter: self.counter.value(),
            a: self.my_struct.value().a,
            b: self.my_struct.value().b@,
            counter_plus_one: self.counter_plus_one,
            button: self.button_1@,
            fragment1: self.fragment1,
            fragment2: self.fragment2 as nat,
            flags: self.flags@,
        }
    }
}

/// Number of items of the #each block (`0..counter`).
pub open spec fn each_len(counter: i32) -> nat {
    if counter > 0 {
        counter as nat
    } else {
        0
    }
}

/// The #each block's patches when the counter changed: when the item count
/// differs, every old item is unmounted and the new items are mounted and filled.
pub open spec fn each_patches(counter: i32, shown: nat) -> Seq<PatchTreeView> {
    let n = each_len(counter);
    if n != shown {
        Seq::new(shown, |i: int| leaf(0, PatchOpView::UnmountEachItem { each_id: 9, parent_id: 0 }))
            + Seq::new(n, |i: int| leaf(9, PatchOpView::MountEachItem { tag: "p"@, parent_id: 0 }))
            + seq![
            PatchTreeView::Node(
                9,
                Seq::new(n, |i: int| set_content(i as u32, "Number: "@ + decimal(i))),
            ),
        ]
    } else {
        Seq::empty()
    }
}

/// Patches for a changed counter: both counter texts, the #if block swap, the #each block.
pub open spec fn counter_patches(p: PageView) -> Seq<PatchTreeView> {
    seq![
        set_content(1, "Count: "@ + decimal(p.counter as int)),
        set_content(4, "Count: "@ + decimal(p.counter as int)),
        if p.fragment1 {
            leaf(7, PatchOpView::UnmountTag { parent_id: 0 })
        } else {
            leaf(8, PatchOpView::UnmountTag { parent_id: 0 })
        },
        if p.counter > 5 {
            leaf(7, PatchOpView::InsertBefore { reference_id: 6, parent_id: 0 })
        } else {
            leaf(8, PatchOpView::InsertBefore { reference_id: 6, parent_id: 0 })
        },
    ] + each_patches(p.counter, p.fragment2)
}

pub open spec fn struct_patches(a: i32, b: Seq<char>) -> Seq<PatchTreeView> {
    seq![
        set_content(2, "Struct A: "@ + decimal(a as int) + " (Click to update)"@),
        set_content(5, "Struct B: "@ + b),
    ]
}

/// What `apply` does: updates the derived value, renders what the flags mark
/// dirty, and passes a changed struct down to the button (unless excluded).
pub open spec fn page_apply(p: PageView, exclude: u64) -> (PageView, Seq<PatchTreeView>) {
    let counter_dirty = p.flags & 1 != 0;
    let f1 = if counter_dirty {
        p.flags | 8
    } else {
        p.flags
    };
    let cpo = if counter_dirty {
        (p.counter + 1) as i32
    } else {
        p.counter_plus_one
    };
    let n = each_len(p.counter);
    let fragment1 = if counter_dirty {
        p.counter > 5
    } else {
        p.fragment1
    };
    let fragment2 = if counter_dirty && n != p.fragment2 {
        n
    } else {
        p.fragment2
    };
    let prop = f1 & !exclude;
    let button = if prop & 2 != 0 {
        ButtonView { text: p.b, ..p.button }
    } else {
        p.button
    };
    let patches = (if counter_dirty {
        counter_patches(p)
    } else {
        seq![]
    }) + (if f1 & 2 != 0 {
        struct_patches(p.a, p.b)
    } else {
        seq![]
    }) + (if f1 & 8 != 0 {
        seq![set_content(11, "Counter plus one: "@ + decimal(cpo as int))]
    } else {
        seq![]
    }) + (if prop & 2 != 0 {
        seq![PatchTreeView::Node(3, seq![set_content(1, button_label(button))])]
    } else {
        seq![]
    });
    (
        PageView {
            counter_plus_one: cpo,
            fragment1,
            fragment2,
            button,
            flags: f1,
            ..p
        },
        patches,
    )
}

pub open spec fn apply_ok(p: PageView) -> bool {
    p.flags & 1 != 0 ==> p.counter < i32::MAX
}

impl Page {
    pub closed spec fn wf(&self) -> bool {
        &&& self.counter.spec_id() == 0
        &&& self.my_struct.spec_id() == 1
        &&& self.button_1.wf()
        &&& self.fragment2 <= i32::MAX
    }

    /// Generates patches for changes to reactive and derived state.
    /// `flag_exclude` masks bound props that must not flow back to the child.
    pub fn apply(&mut self, flag_exclude: u64) -> (patches: Vec<PatchTreeNode>)
        requires
            old(self).wf(),
            apply_ok(old(self)@),
        ensures
            final(self).wf(),
            (final(self)@, trees_view(patches@)) == page_apply(old(self)@, flag_exclude),
    {
        let ghost p = self@;
        proof {
            lemma_or_bit_keeps(p.flags, 8, 1);
            lemma_or_bit_keeps(p.flags, 8, 2);
        }
        // update derived
        if self.flags.load() & 1 != 0 {
            self.counter_plus_one = *self.counter.get() + 1;
            self.flags.fetch_or(8);
        }
        let ghost p1 = self@;
        let mut patches: Vec<PatchTreeNode> = if self.flags.load() & 1 != 0 {
            self.render_counter()
        } else {
            Vec::new()
        };
        proof {
            assert(trees_view(patches@) == (if p.flags & 1 != 0 {
                counter_patches(p)
            } else {
                seq![]
            })) by {
                if p.flags & 1 == 0 {
                    assert(trees_view(patches@) =~= Seq::<PatchTreeView>::empty());
                }
            }
        }
        let ghost after_counter = trees_view(patches@);
        // struct changed
        if self.flags.load() & 2 != 0 {
            let more = self.render_struct();
            append_patches(&mut patches, more);
        }
        let ghost after_struct = trees_view(patches@);
        // derived value changed
        if self.flags.load() & 8 != 0 {
            push_patch(
                &mut patches,
                set_content_patch(11, label_int("Counter plus one: ", self.counter_plus_one as i64)),
            );
        }
        let ghost after_derived = trees_view(patches@);
        let flag_snapshot = self.flags.load();
        let prop_flags = flag_snapshot & !flag_exclude;
        // propagate to the button
        if prop_flags & 2 != 0 {
            self.flags.store(0);
            self.button_1.text = self.my_struct.get().b.clone();
            self.flags.fetch_or(1);
            proof {
                assert(0u64 | 1u64 == 1u64) by (bit_vector);
                assert(1u64 & 3u64 != 0) by (bit_vector);
            }
            let child = self.button_1.apply(0, &mut self.flags);
            push_patch(&mut patches, node(3, child));
            proof {
                assert(trees_view(child@) =~= seq![set_content(1, button_label(self.button_1@))]);
            }
        }
        self.flags.store(flag_snapshot);
        proof {
            let (v, ps) = page_apply(p, flag_exclude);
            assert(self@ == v);
            assert(trees_view(patches@) =~= ps);
        }
        patches
    }

    /// Renders a changed counter: texts, #if block, #each block.
    fn render_counter(&mut self) -> (patches: Vec<PatchTreeNode>)
        requires
            old(self).wf(),
        ensures
            final(self).wf(),
            final(self)@ == (PageView {
                fragment1: old(self)@.counter > 5,
                fragment2: if each_len(old(self)@.counter) != old(self)@.fragment2 {
                    each_len(old(self)@.counter)
                } else {
                    old(self)@.fragment2
                },
                ..old(self)@
            }),
            trees_view(patches@) == counter_patches(old(self)@),
    {
        let ghost p = self@;
        let mut patches: Vec<PatchTreeNode> = Vec::new();
        let c = *self.counter.get();
        push_patch(&mut patches, set_content_patch(1, label_int("Count: ", c as i64)));
        push_patch(&mut patches, set_content_patch(4, label_int("Count: ", c as i64)));
        if self.fragment1 {
            push_patch(&mut patches, PatchTreeNode::Leaf(7, PatchOp::UnmountTag { parent_id: 0 }));
        } else {
            push_patch(&mut patches, PatchTreeNode::Leaf(8, PatchOp::UnmountTag { parent_id: 0 }));
        }
        self.fragment1 = c > 5;
        if self.fragment1 {
            push_patch(
                &mut patches,
                PatchTreeNode::Leaf(7, PatchOp::InsertBefore { reference_id: 6, parent_id: 0 }),
            );
        } else {
            push_patch(
                &mut patches,
                PatchTreeNode::Leaf(8, PatchOp::InsertBefore { reference_id: 6, parent_id: 0 }),
            );
        }
        let each = render_each(c, self.fragment2);
        append_patches(&mut patches, each);
        let n: usize = if c > 0 { c as usize } else { 0 };
        if n != self.fragment2 {
            self.fragment2 = n;
        }
        proof {
            assert(trees_view(patches@) =~= counter_patches(p));
        }
        patches
    }

    /// Renders a changed struct.
    fn render_struct(&self) -> (patches: Vec<PatchTreeNode>)
        ensures
            trees_view(patches@) == struct_patches(self@.a, self@.b),
    {
        let mut patches: Vec<PatchTreeNode> = Vec::new();
        let a = self.my_struct.get().a;
        push_patch(
            &mut patches,
            set_content_patch(2, label_int_suffix("Struct A: ", a as i64, " (Click to update)")),
        );
        push_patch(
            &mut patches,
            set_content_patch(5, label_text("Struct B: ", self.my_struct.get().b.as_str())),
        );
        proof {
            assert(trees_view(patches@) =~= struct_patches(self@.a, self@.b));
        }
        patches
    }

}

/// The #each block's patches when the counter changed (see `each_patches`).
pub(crate) fn render_each(counter: i32, shown: usize) -> (patches: Vec<PatchTreeNode>)
    requires
        shown <= i32::MAX,
    ensures
        trees_view(patches@) == each_patches(counter, shown as nat),
{
    let n: usize = if counter > 0 { counter as usize } else { 0 };
    let mut patches: Vec<PatchTreeNode> = Vec::new();
    if n != shown {
        let mut k: usize = 0;
        while k < shown
            invariant
                k <= shown,
                trees_view(patches@) == Seq::new(
                    k as nat,
                    |i: int| leaf(0, PatchOpView::UnmountEachItem { each_id: 9, parent_id: 0 }),
                ),
            decreases shown - k,
        {
            push_patch(
                &mut patches,
                PatchTreeNode::Leaf(0, PatchOp::UnmountEachItem { each_id: 9, parent_id: 0 }),
            );
            proof {
                assert(trees_view(patches@) =~= Seq::new(
                    (k + 1) as nat,
                    |i: int| leaf(0, PatchOpView::UnmountEachItem { each_id: 9, parent_id: 0 }),
                ));
            }
            k += 1;
        }
        let ghost unmounts = trees_view(patches@);
        let mut contents: Vec<PatchTreeNode> = Vec::new();
        let mut i: usize = 0;
        while i < n
            invariant
                n == each_len(counter),
                n <= i32::MAX,
                i <= n,
                trees_view(patches@) == unmounts + Seq::new(
                    i as nat,
                    |j: int| leaf(9, PatchOpView::MountEachItem { tag: "p"@, parent_id: 0 }),
                ),
                trees_view(contents@) == Seq::new(
                    i as nat,
                    |j: int| set_content(j as u32, "Number: "@ + decimal(j)),
                ),
            decreases n - i,
        {
            push_patch(&mut patches, mount_each_item(9, "p", 0));
            push_patch(
                &mut contents,
                set_content_patch(i as u32, label_int("Number: ", i as i64)),
            );
            proof {
                assert(trees_view(patches@) =~= unmounts + Seq::new(
                    (i + 1) as nat,
                    |j: int| leaf(9, PatchOpView::MountEachItem { tag: "p"@, parent_id: 0 }),
                ));
                assert(trees_view(contents@) =~= Seq::new(
                    (i + 1) as nat,
                    |j: int| set_content(j as u32, "Number: "@ + decimal(j)),
                ));
            }
            i += 1;
        }
        push_patch(&mut patches, node(9, contents));
        proof {
            assert(trees_view(patches@) =~= each_patches(counter, shown as nat));
        }
    } else {
        proof {
            assert(trees_view(patches@) =~= each_patches(counter, shown as nat));
        }
    }
    patches
}

fn mount_each_item(id: u32, tag: &str, parent_id: u32) -> (t: PatchTreeNode)
    ensures
        t.tree_view() == leaf(id, PatchOpView::MountEachItem { tag: tag@, parent_id }),
{
    PatchTreeNode::Leaf(id, PatchOp::MountEachItem { tag: String::from_str(tag), parent_id })
}


/// Initialization of a component's state, run once when it is created.
pub trait Init {
    spec fn init_ok(&self) -> bool;

    fn init(&mut self)
        requires
            old(self).init_ok(),
    ;
}

pub open spec fn incremented(p: PageView) -> PageView {
    PageView { counter: (p.counter + 1) as i32, flags: p.flags | 1, ..p }
}

/// `increment` neither overflows the counter nor the sum it computes with it.
pub open spec fn increment_ok(p: PageView) -> bool {
    p.counter + 1 + 5 <= i32::MAX
}

pub open spec fn struct_updated(p: PageView, inc: bool) -> PageView {
    let q = if inc {
        incremented(p)
    } else {
        p
    };
    PageView {
        a: (q.a + q.counter) as i32,
        b: "Count is "@ + decimal(q.counter as int),
        flags: q.flags | 2,
        ..q
    }
}

pub open spec fn update_struct_ok(p: PageView, inc: bool) -> bool {
    let q = if inc {
        incremented(p)
    } else {
        p
    };
    &&& inc ==> increment_ok(p)
    &&& i32::MIN <= q.a + q.counter <= i32::MAX
}

/// The page after the event handler ran (before rendering), the patches of
/// the child, and the bound props to exclude from flowing back to the child.
pub open spec fn page_event(p: PageView, event: Seq<char>, path: Seq<u32>) -> (
    PageView,
    Seq<PatchTreeView>,
    u64,
) {
    let target = path.last();
    let rest = path.drop_last();
    if is_click(event) && target == 1 {
        (incremented(p), seq![], 0)
    } else if is_click(event) && target == 2 {
        (struct_updated(p, true), seq![], 0)
    } else if target == 3 {
        let (b2, f2) = button_event(p.button, p.flags, event, rest.last());
        let child = seq![PatchTreeView::Node(3, button_apply_patches(b2, f2))];
        if f2 & 2 != 0 {
            (PageView { counter: b2.func_call, button: b2, flags: 1, ..p }, child, 1)
        } else {
            (PageView { button: b2, flags: 0, ..p }, child, 0)
        }
    } else {
        (p, seq![], 0)
    }
}

pub open spec fn page_event_ok(p: PageView, event: Seq<char>, path: Seq<u32>) -> bool {
    let target = path.last();
    let rest = path.drop_last();
    &&& path.len() > 0
    &&& is_click(event) && target == 1 ==> increment_ok(p)
    &&& is_click(event) && target == 2 ==> update_struct_ok(p, true)
    &&& !(is_click(event) && (target == 1 || target == 2)) && target == 3 ==> rest.len() > 0
        && button_event_ok(p.button, event, rest.last())
    &&& apply_ok(page_event(p, event, path).0)
}

/// Handling an event: run the handler, then render.
pub open spec fn page_proc(p: PageView, event: Seq<char>, path: Seq<u32>) -> (
    PageView,
    Seq<PatchTreeView>,
) {
    let (q, child, exclude) = page_event(p, event, path);
    let (r, patches) = page_apply(q, exclude);
    (r, child + patches)
}

/// The page's mount patches (before its first render).
pub open spec fn page_mount_patches(p: PageView, parent_path: Seq<u32>) -> Seq<PatchTreeView> {
    seq![
        leaf(0, PatchOpView::MountPage { tag: "div"@ }),
        leaf(1, PatchOpView::MountTag { tag: "button"@, parent_id: 0 }),
        leaf(2, PatchOpView::MountTag { tag: "button"@, parent_id: 0 }),
        leaf(3, PatchOpView::MountFragment { tag: "div"@, parent_id: 0 }),
        PatchTreeView::Node(3, button_mount_patches(p.button, seq![3u32] + parent_path)),
        leaf(4, PatchOpView::MountTag { tag: "p"@, parent_id: 0 }),
        leaf(5, PatchOpView::MountTag { tag: "p"@, parent_id: 0 }),
        leaf(6, PatchOpView::MountComment { parent_id: 0 }),
        leaf(7, PatchOpView::AddToMap { tag: "p"@ }),
        set_content(7, "Counter is greater than 5!"@),
        leaf(8, PatchOpView::AddToMap { tag: "p"@ }),
        set_content(8, "Counter is 5 or less."@),
        leaf(8, PatchOpView::InsertBefore { reference_id: 6, parent_id: 0 }),
        leaf(9, PatchOpView::MountEachFragment),
        leaf(10, PatchOpView::MountTag { tag: "div"@, parent_id: 0 }),
        leaf(11, PatchOpView::MountTag { tag: "p"@, parent_id: 10 }),
        click_listener(1, parent_path),
        click_listener(2, parent_path),
    ]
}

/// Mounting: the mount patches, then a first render with every variable dirty.
pub open spec fn page_mount(p: PageView, parent_path: Seq<u32>) -> (PageView, Seq<PatchTreeView>) {
    let (r, patches) = page_apply(PageView { flags: u64::MAX, ..p }, 0);
    (r, page_mount_patches(p, parent_path) + patches)
}

/// The state of a freshly created page (after its init code ran).
pub open spec fn initial_page() -> PageView {
    PageView {
        counter: 1,
        a: 10,
        b: "hello"@,
        counter_plus_one: 1,
        button: ButtonView { text: Seq::empty(), func_call: 0, button_counter: 0 },
        fragment1: false,
        fragment2: 0,
        flags: 1,
    }
}

impl Init for Page {
    open spec fn init_ok(&self) -> bool {
        self.wf() && increment_ok(self@)
    }

    /// User init code: counts one.
    fn init(&mut self)
        ensures
            final(self).wf(),
            final(self)@ == incremented(old(self)@),
    {
        self.increment();
    }
}

/// `a + b` (the generated code's helper).
pub fn add(a: i32, b: i32) -> (sum: i32)
    requires
        i32::MIN <= a + b <= i32::MAX,
    ensures
        sum == a + b,
{
    a + b
}

impl Page {
    /// A new page with its initial state; runs the init code.
    pub fn new() -> (page: Self)
        ensures
            page.wf(),
            page@ == initial_page(),
    {
        let mut new_page = Page {
            counter: MutateTracker::new(0, 0),
            my_struct: MutateTracker::new(MyStruct { a: 10, b: String::from_str("hello") }, 1),
            counter_plus_one: 1,
            button_1: Button {
                text: String::new(),
                func_call: MutateTracker::new(0, 1),
                button_counter: MutateTracker::new(0, 0),
            },
            fragment1: false,
            fragment2: 0,
            flags: DirtyFlags::new(),
        };
        new_page.init();
        proof {
            assert(0u64 | 1u64 == 1u64) by (bit_vector);
        }
        new_page
    }

    /// User code: counts one.
    pub fn increment(&mut self)
        requires
            old(self).wf(),
            increment_ok(old(self)@),
        ensures
            final(self).wf(),
            final(self)@ == incremented(old(self)@),
    {
        proof {
            lemma_low_bits();
        }
        let c = self.counter.get_mut(&mut self.flags);
        *c = *c + 1;
        self::add(*self.counter.get(), 5);
    }

    /// User code: optionally counts one, then adds the counter to the struct
    /// and describes it.
    pub fn update_struct(&mut self, inc: bool)
        requires
            old(self).wf(),
            update_struct_ok(old(self)@, inc),
        ensures
            final(self).wf(),
            final(self)@ == struct_updated(old(self)@, inc),
    {
        proof {
            lemma_low_bits();
        }
        if inc {
            self.increment();
        }
        let c = *self.counter.get();
        let s = self.my_struct.get_mut(&mut self.flags);
        s.a = s.a + c;
        let text = label_int("Count is ", c as i64);
        let s = self.my_struct.get_mut(&mut self.flags);
        s.b = text;
        proof {
            let f: u64 = if inc { old(self)@.flags | 1 } else { old(self)@.flags };
            assert((f | 2) | 2 == f | 2) by (bit_vector);
        }
    }

    /// Processes an event at `target_path` (innermost target last) and returns
    /// the patches to apply: the handler runs, an event inside the button is
    /// passed down and a changed bound prop updates the counter, then the page renders.
    pub fn proc(&mut self, event_type: &str, target_path: Vec<u32>) -> (patches: Vec<PatchTreeNode>)
        requires
            old(self).wf(),
            page_event_ok(old(self)@, event_type@, target_path@),
        ensures
            final(self).wf(),
            (final(self)@, trees_view(patches@)) == page_proc(
                old(self)@,
                event_type@,
                target_path@,
            ),
    {
        proof {
            lemma_low_bits();
        }
        let ghost p = self@;
        let ghost path = target_path@;
        let mut patches: Vec<PatchTreeNode> = Vec::new();
        let mut bind_exclude_flags: u64 = 0;
        let mut target_path = target_path;
        let target = target_path.pop().unwrap();
        let click = str_eq(event_type, "click");
        if click && target == 1 {
            self.increment();
        } else if click && target == 2 {
            self.update_struct(true);
        } else if target == 3 {
            let child = self.button_1.proc(event_type, target_path, &mut self.flags);
            push_patch(&mut patches, node(3, child));
            let child_bindable_flags = self.flags.load();
            self.flags.store(0);
            if child_bindable_flags & 2 != 0 {
                let v = *self.button_1.func_call.get();
                let c = self.counter.get_mut(&mut self.flags);
                *c = v;
                bind_exclude_flags = bind_exclude_flags | 1;
                proof {
                    assert(0u64 | 1u64 == 1u64) by (bit_vector);
                }
            }
        }
        proof {
            let (q, child, ex) = page_event(p, event_type@, path);
            assert(self@ == q);
            assert(trees_view(patches@) =~= child);
            assert(bind_exclude_flags == ex);
        }
        let rendered = self.apply(bind_exclude_flags);
        append_patches(&mut patches, rendered);
        patches
    }

    /// Mount patches for the page under `parent_path`, then its first render.
    pub fn mount(&mut self, parent_path: Vec<u32>) -> (patches: Vec<PatchTreeNode>)
        requires
            old(self).wf(),
            parent_path.len() < usize::MAX - 1,
            old(self)@.counter < i32::MAX,
        ensures
            final(self).wf(),
            (final(self)@, trees_view(patches@)) == page_mount(old(self)@, parent_path@),
    {
        let ghost p = self@;
        let mut patches: Vec<PatchTreeNode> = Vec::new();
        push_patch(&mut patches, PatchTreeNode::Leaf(0, PatchOp::MountPage { tag: String::from_str("div") }));
        push_patch(&mut patches, mount_tag(1, "button", 0));
        push_patch(&mut patches, mount_tag(2, "button", 0));
        push_patch(
            &mut patches,
            PatchTreeNode::Leaf(3, PatchOp::MountFragment { tag: String::from_str("div"), parent_id: 0 }),
        );
        let button_patches = self.button_1.mount(prepend_path(&parent_path, 3), &mut self.flags);
        push_patch(&mut patches, node(3, button_patches));
        push_patch(&mut patches, mount_tag(4, "p", 0));
        push_patch(&mut patches, mount_tag(5, "p", 0));
        push_patch(&mut patches, PatchTreeNode::Leaf(6, PatchOp::MountComment { parent_id: 0 }));
        push_patch(&mut patches, PatchTreeNode::Leaf(7, PatchOp::AddToMap { tag: String::from_str("p") }));
        push_patch(&mut patches, set_content_patch(7, String::from_str("Counter is greater than 5!")));
        push_patch(&mut patches, PatchTreeNode::Leaf(8, PatchOp::AddToMap { tag: String::from_str("p") }));
        push_patch(&mut patches, set_content_patch(8, String::from_str("Counter is 5 or less.")));
        push_patch(
            &mut patches,
            PatchTreeNode::Leaf(8, PatchOp::InsertBefore { reference_id: 6, parent_id: 0 }),
        );
        push_patch(&mut patches, PatchTreeNode::Leaf(9, PatchOp::MountEachFragment));
        push_patch(&mut patches, mount_tag(10, "div", 0));
        push_patch(&mut patches, mount_tag(11, "p", 10));
        push_patch(&mut patches, listener(1, "click", prepend_path(&parent_path, 1)));
        push_patch(&mut patches, listener(2, "click", prepend_path(&parent_path, 2)));
        proof {
            assert(seq![1u32] + (seq![3u32] + parent_path@) =~= seq![1u32, 3u32] + parent_path@);
            assert(trees_view(patches@) =~= page_mount_patches(p, parent_path@));
        }
        // mark all as dirty for the first render
        self.flags.store(u64::MAX);
        proof {
            lemma_all_or_none(1);
        }
        let rendered = self.apply(0);
        append_patches(&mut patches, rendered);
        patches
    }

    /// The page's entry for an event: clears the dirty flags, then `proc`.
    pub fn handle_event(&mut self, event_type: &str, target: Vec<u32>) -> (patches: Vec<
        PatchTreeNode,
    >)
        requires
            old(self).wf(),
            page_event_ok(PageView { flags: 0, ..old(self)@ }, event_type@, target@),
        ensures
            final(self).wf(),
            (final(self)@, trees_view(patches@)) == page_proc(
                PageView { flags: 0, ..old(self)@ },
                event_type@,
                target@,
            ),
    {
        self.flags.store(0);
        self.proc(event_type, target)
    }

    /// The page's entry for the first render: every flag dirty, mounted at the root.
    pub fn mount_page(&mut self) -> (patches: Vec<PatchTreeNode>)
        requires
            old(self).wf(),
            old(self)@.counter < i32::MAX,
        ensures
            final(self).wf(),
            (final(self)@, trees_view(patches@)) == page_mount(
                PageView { flags: u64::MAX, ..old(self)@ },
                Seq::empty(),
            ),
    {
        self.flags.store(u64::MAX);
        self.mount(Vec::new())
    }
}


// ---------------------------------------------------------------------------
// Laws of the page.
// ---------------------------------------------------------------------------

/// Rendering a changed counter brings the derived value and the #if and
/// #each bookkeeping in line with it.
pub proof fn law_render_follows_counter(p: PageView, exclude: u64)
    requires
        p.flags & 1 != 0,
        apply_ok(p),
    ensures
        page_apply(p, exclude).0.counter_plus_one == p.counter + 1,
        page_apply(p, exclude).0.fragment1 == (p.counter > 5),
        page_apply(p, exclude).0.fragment2 == each_len(p.counter),
        page_apply(p, exclude).0.counter == p.counter,
{
}

/// Rendering never clears a dirty bit: the flags are restored after the
/// child's render (the derived bit is added when the counter changed).
pub proof fn law_render_keeps_flags(p: PageView, exclude: u64, mask: u64)
    requires
        p.flags & mask != 0,
    ensures
        page_apply(p, exclude).0.flags & mask != 0,
{
    let f = p.flags;
    assert((f | 8) & mask != 0) by (bit_vector)
        requires
            f & mask != 0,
    ;
}

/// When the child calls its bound function prop ("Set parent" in the
/// button), the page's counter takes the child's count.
pub proof fn law_bound_prop_reaches_parent(p: PageView, path: Seq<u32>)
    requires
        path.len() >= 2,
        path.last() == 3,
        path.drop_last().last() == 2,
    ensures
        page_event(p, "click"@, path).0.counter == p.button.button_counter,
        page_event(p, "click"@, path).0.button.func_call == p.button.button_counter,
{
    let f = p.flags;
    assert((f | 2) & 2 != 0) by (bit_vector);
}

/// After mounting, the derived value and the #if and #each blocks agree with
/// the counter, and every dirty bit is still set.
pub proof fn law_mount_in_sync(p: PageView, parent_path: Seq<u32>)
    requires
        p.counter < i32::MAX,
    ensures
        page_mount(p, parent_path).0.counter_plus_one == p.counter + 1,
        page_mount(p, parent_path).0.fragment1 == (p.counter > 5),
        page_mount(p, parent_path).0.fragment2 == each_len(p.counter),
        page_mount(p, parent_path).0.flags == u64::MAX,
{
    crate::dirty::lemma_all_or_none(1);
    assert(u64::MAX | 8 == u64::MAX) by (bit_vector);
}


impl Page {
    /// Whether `handle_event` can process this event without an arithmetic
    /// overflow and with the target path it needs.
    pub fn can_handle_event(&self, event_type: &str, target: &Vec<u32>) -> (ok: bool)
        requires
            self.wf(),
        ensures
            ok == page_event_ok(PageView { flags: 0, ..self@ }, event_type@, target@),
    {
        let ghost p0 = PageView { flags: 0, ..self@ };
        proof {
            assert((0u64 | 2) & 2 != 0) by (bit_vector);
            assert((0u64 | 1) & 2 == 0) by (bit_vector);
            assert(0u64 & 2 == 0) by (bit_vector);
            assert((0u64 | 1) & 1 != 0) by (bit_vector);
            assert(((0u64 | 1) | 2) & 1 != 0) by (bit_vector);
            assert(0u64 & 1 == 0) by (bit_vector);
            assert(1u64 & 1 != 0) by (bit_vector);
        }
        if target.len() == 0 {
            return false;
        }
        let t = target[target.len() - 1];
        let click = str_eq(event_type, "click");
        let c = *self.counter.get();
        let bc = *self.button_1.button_counter.get();
        proof {
            assert(target@.last() == t);
        }
        if click && t == 1 {
            let ok = c <= i32::MAX - 6;
            proof {
                assert(page_event(p0, event_type@, target@).0 == incremented(p0));
                assert(p0.counter == c);
                assert(ok == increment_ok(p0));
                assert(incremented(p0).flags & 1 != 0);
                assert(ok == page_event_ok(p0, event_type@, target@));
            }
            ok
        } else if click && t == 2 {
            let a = self.my_struct.get().a;
            let ok = c <= i32::MAX - 6 && (a as i64) + (c as i64) + 1 <= i32::MAX as i64 && (a as i64)
                + (c as i64) + 1 >= i32::MIN as i64;
            proof {
                assert(page_event(p0, event_type@, target@).0 == struct_updated(p0, true));
                if ok {
                    assert(incremented(p0).counter == c + 1);
                    assert(update_struct_ok(p0, true));
                }
                assert(ok == page_event_ok(p0, event_type@, target@));
            }
            ok
        } else if t == 3 {
            if target.len() < 2 {
                return false;
            }
            let inner = target[target.len() - 2];
            proof {
                assert(target@.drop_last().last() == inner);
            }
            if click && (inner == 1 || inner == 2) {
                let ok = bc < i32::MAX;
                proof {
                    assert(ok == page_event_ok(p0, event_type@, target@));
                }
                ok
            } else {
                proof {
                    assert(button_event(p0.button, 0, event_type@, inner) == (p0.button, 0u64));
                    assert(page_event_ok(p0, event_type@, target@));
                }
                true
            }
        } else {
            proof {
                assert(page_event(p0, event_type@, target@).0 == p0);
                assert(page_event_ok(p0, event_type@, target@));
            }
            true
        }
    }

    /// Whether `mount_page` can render without an arithmetic overflow.
    pub fn can_mount(&self) -> (ok: bool)
        ensures
            ok == (self@.counter < i32::MAX),
    {
        *self.counter.get() < i32::MAX
    }
}


/// When the number of items of the #each block (`0..counter`) differs from
/// the number shown, every shown item is unmounted, each new item is mounted,
/// and item `i` is filled with "Number: {i}"; when it is the same, nothing
/// changes.
pub proof fn law_each_rebuilt_on_count_change(counter: i32, shown: nat)
    ensures
        each_len(counter) != shown ==> ({
            let ps = each_patches(counter, shown);
            let n = each_len(counter);
            &&& ps.len() == shown + n + 1
            &&& forall|k: int| 0 <= k < shown ==> ps[k] == leaf(0, PatchOpView::UnmountEachItem { each_id: 9, parent_id: 0 })
            &&& forall|k: int| shown <= k < shown + n ==> ps[k] == leaf(9, PatchOpView::MountEachItem { tag: "p"@, parent_id: 0 })
            &&& ps.last() matches PatchTreeView::Node(9, texts) && texts.len() == n && forall|i: int|
                0 <= i < n ==> texts[i] == set_content(i as u32, "Number: "@ + decimal(i))
        }),
        each_len(counter) == shown ==> each_patches(counter, shown).len() == 0,
        each_len(counter) == if counter > 0 { counter as int } else { 0 },
{
}

/// A render with the counter dirty shows the #if block's first branch
/// (element 7) exactly when the counter is above 5, and records the number
/// of #each items as `0..counter` has them.
pub proof fn law_render_if_and_each_follow_counter(p: PageView, exclude: u64)
    requires
        p.flags & 1 != 0,
    ensures
        page_apply(p, exclude).1[3] == (if p.counter > 5 {
            leaf(7, PatchOpView::InsertBefore { reference_id: 6, parent_id: 0 })
        } else {
            leaf(8, PatchOpView::InsertBefore { reference_id: 6, parent_id: 0 })
        }),
        page_apply(p, exclude).0.fragment2 == (if p.counter > 0 { p.counter as int } else { 0 }),
{
}

/// A click on the page's second button counts one and adds the new count to
/// the struct's `a`.
pub proof fn law_struct_click_adds_counter(p: PageView, path: Seq<u32>)
    requires
        path.len() > 0,
        path.last() == 2,
        p.counter + 1 <= i32::MAX,
        i32::MIN <= p.a + p.counter + 1 <= i32::MAX,
    ensures
        page_event(p, "click"@, path).0.counter == p.counter + 1,
        page_event(p, "click"@, path).0.a == p.a + p.counter + 1,
{
}

} // verus!
