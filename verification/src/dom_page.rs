use vstd::prelude::*;
use vstd::string::*;
use crate::dirty::{lemma_all_or_none, lemma_low_bits, lemma_or_bit_keeps, DirtyFlags, MutateTracker};
use crate::patch_page::{is_click, MyStruct};
use crate::routing::str_eq;
use crate::text::{decimal, decimal_string, label_int, label_int_suffix, label_text, text_colon_int};

verus! {

// ---------------------------------------------------------------------------
// A page that updates the DOM directly. The decisions stand here: how state
// changes on an event, and what a render pass changes in which element; the
// elements themselves are held and changed by the caller.
//
// Elements of the page: 0 div, 1 button, 2 button, 3 p, 4 p, 5 #if block,
// 6 #each block, 7 div, 8 p, 9 the button component.
// ---------------------------------------------------------------------------

pub struct PageStateView {
    pub counter: i32,
    pub a: i32,
    pub b: Seq<char>,
    pub counter_plus_one: i32,
}

/// The page's state: counter (id 0), struct (id 1), derived counter + 1.
pub struct PageState {
    counter: MutateTracker<i32>,
    my_struct: MutateTracker<MyStruct>,
    counter_plus_one: i32,
}

impl View for PageState {
    type V = PageStateView;

    closed spec fn view(&self) -> PageStateView {
        PageStateView {
            counter: self.counter.value(),
            a: self.my_struct.value().a,
            b: self.my_struct.value().b@,
            counter_plus_one: self.counter_plus_one,
        }
    }
}

impl PageState {
    pub closed spec fn wf(&self) -> bool {
        self.counter.spec_id() == 0 && self.my_struct.spec_id() == 1
    }

    /// User init code: counts one.
    pub fn init(&mut self, flags: &mut DirtyFlags)
        requires
            old(self).wf(),
            old(self)@.counter < i32::MAX,
        ensures
            final(self).wf(),
            final(self)@ == (PageStateView { counter: (old(self)@.counter + 1) as i32, ..old(self)@ }),
            final(flags)@ == old(flags)@ | 1,
    {
        proof {
            lemma_low_bits();
        }
        let c = self.counter.get_mut(flags);
        *c = *c + 1;
    }

    /// User code: counts one.
    pub fn increment(&mut self, flags: &mut DirtyFlags)
        requires
            old(self).wf(),
            old(self)@.counter + 6 <= i32::MAX,
        ensures
            final(self).wf(),
            final(self)@ == (PageStateView { counter: (old(self)@.counter + 1) as i32, ..old(self)@ }),
            final(flags)@ == old(flags)@ | 1,
    {
        proof {
            lemma_low_bits();
        }
        let c = self.counter.get_mut(flags);
        *c = *c + 1;
        crate::patch_page::add(*self.counter.get(), 5);
    }

    /// User code: optionally counts one, then adds the counter to the struct
    /// and describes it.
    pub fn update_struct(&mut self, inc: bool, flags: &mut DirtyFlags)
        requires
            old(self).wf(),
            inc ==> old(self)@.counter + 6 <= i32::MAX,
            i32::MIN <= old(self)@.a + old(self)@.counter + (if inc { 1int } else { 0int }) <= i32::MAX,
        ensures
            final(self).wf(),
            ({
                let c = if inc { old(self)@.counter + 1 } else { old(self)@.counter as int };
                final(self)@ == (PageStateView {
                    counter: c as i32,
                    a: (old(self)@.a + c) as i32,
                    b: "Count is "@ + decimal(c),
                    ..old(self)@
                })
            }),
            final(flags)@ == (if inc { old(flags)@ | 1 } else { old(flags)@ }) | 2,
    {
        proof {
            lemma_low_bits();
        }
        if inc {
            self.increment(flags);
        }
        let c = *self.counter.get();
        let s = self.my_struct.get_mut(flags);
        s.a = s.a + c;
        let text = label_int("Count is ", c as i64);
        let s = self.my_struct.get_mut(flags);
        s.b = text;
        proof {
            let f: u64 = if inc { old(flags)@ | 1 } else { old(flags)@ };
            assert((f | 2) | 2 == f | 2) by (bit_vector);
        }
    }
}

/// Which branch of the #if block shows: 0 ("Counter is greater than 5!") or 1.
pub open spec fn spec_if_branch(counter: i32) -> u8 {
    if counter > 5 {
        0
    } else {
        1
    }
}

pub fn if_branch(counter: i32) -> (branch: u8)
    ensures
        branch == spec_if_branch(counter),
{
    if counter > 5 {
        0
    } else {
        1
    }
}

/// What a render pass changes in the #if block.
pub struct IfUpdate {
    /// Unmount the shown branch and create and mount this one.
    pub swap_to: Option<u8>,
    /// New text of the first branch's value node.
    pub refresh_text: Option<String>,
}

/// The #if block's update: on a counter change the branch follows the
/// counter; the first branch shows the struct's `a` and refreshes it when
/// the struct changed.
pub fn if_frag_1_update(state: &PageState, active_branch: u8, flags: u64) -> (u: IfUpdate)
    ensures
        u.swap_to == (if flags & 1 != 0 && spec_if_branch(state@.counter) != active_branch {
            Some(spec_if_branch(state@.counter))
        } else {
            None
        }),
        ({
            let shown = match u.swap_to {
                Some(b) => b,
                None => active_branch,
            };
            match u.refresh_text {
                Some(t) => shown == 0 && flags & 2 != 0 && t@ == decimal(state@.a as int),
                None => !(shown == 0 && flags & 2 != 0),
            }
        }),
{
    let mut swap_to: Option<u8> = None;
    let mut shown = active_branch;
    if flags & 1 != 0 {
        let branch = if_branch(*state.counter.get());
        if branch != active_branch {
            swap_to = Some(branch);
            shown = branch;
        }
    }
    let refresh_text = if shown == 0 && flags & 2 != 0 {
        Some(decimal_string(state.my_struct.get().a as i64))
    } else {
        None
    };
    IfUpdate { swap_to, refresh_text }
}

/// The items of the #each block (`0..counter`).
pub fn each_items(counter: i32) -> (items: Vec<i32>)
    ensures
        items@.len() == (if counter > 0 { counter as int } else { 0 }),
        forall|i: int| 0 <= i < items@.len() ==> items@[i] == i,
{
    let mut items: Vec<i32> = Vec::new();
    let mut i: i32 = 0;
    while i < counter
        invariant
            0 <= i,
            counter > 0 ==> i <= counter,
            counter <= 0 ==> i == 0,
            items@.len() == i,
            forall|k: int| 0 <= k < items@.len() ==> items@[k] == k,
        decreases counter - i,
    {
        items.push(i);
        i += 1;
    }
    items
}

/// The #each block's update: on a counter change its items become `0..counter`.
pub fn each_frag_1_update(state: &PageState, flags: u64) -> (items: Option<Vec<i32>>)
    ensures
        (items is Some) == (flags & 1 != 0),
        items matches Some(v) ==> v@.len() == (if state@.counter > 0 { state@.counter as int } else { 0 })
            && forall|i: int| 0 <= i < v@.len() ==> v@[i] == i,
{
    if flags & 1 != 0 {
        Some(each_items(*state.counter.get()))
    } else {
        None
    }
}

pub struct DomButtonView {
    pub text: Seq<char>,
    pub func_call: i32,
    pub button_counter: i32,
}

/// The button component's state (elements: 0 div, 1 button, 2 "Set parent").
pub struct DomButton {
    text: String,
    func_call: MutateTracker<i32>,
    button_counter: MutateTracker<i32>,
}

impl View for DomButton {
    type V = DomButtonView;

    closed spec fn view(&self) -> DomButtonView {
        DomButtonView {
            text: self.text@,
            func_call: self.func_call.value(),
            button_counter: self.button_counter.value(),
        }
    }
}

pub open spec fn dom_button_label(b: DomButtonView) -> Seq<char> {
    b.text + ": "@ + decimal(b.button_counter as int)
}

impl DomButton {
    pub closed spec fn wf(&self) -> bool {
        self.func_call.spec_id() == 1 && self.button_counter.spec_id() == 0
    }

    /// A new button: marks everything dirty and renders; returns the text of
    /// its first button.
    pub fn new(flags: &mut DirtyFlags) -> (res: (Self, Option<String>))
        ensures
            res.0.wf(),
            res.0@ == (DomButtonView { text: Seq::empty(), func_call: 0, button_counter: 0 }),
            final(flags)@ == u64::MAX,
            res.1 matches Some(h) && h@ == dom_button_label(res.0@),
    {
        let mut b = DomButton {
            text: String::new(),
            func_call: MutateTracker::new(0, 1),
            button_counter: MutateTracker::new(0, 0),
        };
        flags.store(u64::MAX);
        proof {
            lemma_all_or_none(3);
        }
        let html = b.apply(flags);
        (b, html)
    }

    pub fn set_text(&mut self, text: String)
        ensures
            final(self).wf() == old(self).wf(),
            final(self)@ == (DomButtonView { text: text@, ..old(self)@ }),
    {
        self.text = text;
    }

    pub fn func_call(&self) -> (v: i32)
        ensures
            v == self@.func_call,
    {
        *self.func_call.get()
    }

    /// Handles an event at the last element of `target_path`.
    pub fn proc(&mut self, event_type: &str, target_path: Vec<u32>, flags: &mut DirtyFlags)
        requires
            old(self).wf(),
            target_path.len() > 0,
            is_click(event_type@) && target_path@.last() == 1 ==> old(self)@.button_counter
                < i32::MAX,
        ensures
            final(self).wf(),
            is_click(event_type@) && target_path@.last() == 1 ==> final(self)@ == (DomButtonView {
                button_counter: (old(self)@.button_counter + 1) as i32,
                ..old(self)@
            }) && final(flags)@ == old(flags)@ | 1,
            is_click(event_type@) && target_path@.last() == 2 ==> final(self)@ == (DomButtonView {
                func_call: old(self)@.button_counter,
                ..old(self)@
            }) && final(flags)@ == old(flags)@ | 2,
            !(is_click(event_type@) && (target_path@.last() == 1 || target_path@.last() == 2))
                ==> final(self)@ == old(self)@ && final(flags)@ == old(flags)@,
    {
        proof {
            lemma_low_bits();
        }
        let mut target_path = target_path;
        let target = target_path.pop().unwrap();
        let click = str_eq(event_type, "click");
        if click && target == 1 {
            let c = self.button_counter.get_mut(flags);
            *c = *c + 1;
        } else if click && target == 2 {
            let v = *self.button_counter.get();
            let f = self.func_call.get_mut(flags);
            *f = v;
        }
    }

    /// The new text of the first button, when its text or counter is dirty.
    pub fn apply(&mut self, flags: &DirtyFlags) -> (html: Option<String>)
        ensures
            final(self)@ == old(self)@,
            final(self).wf() == old(self).wf(),
            match html {
                Some(h) => flags@ & 3 != 0 && h@ == dom_button_label(old(self)@),
                None => flags@ & 3 == 0,
            },
    {
        if flags.load() & 3 != 0 {
            Some(text_colon_int(self.text.as_str(), *self.button_counter.get() as i64))
        } else {
            None
        }
    }
}


/// What one render pass of the page changes in its elements.
pub struct PageRender {
    /// New contents of elements 1 ("Counter: ..") and 3 ("Count: ..").
    pub counter_html: Option<(String, String)>,
    /// Changes to the #if block (element 5).
    pub if_update: IfUpdate,
    /// New items of the #each block (element 6).
    pub each_items: Option<Vec<i32>>,
    /// New contents of elements 2 and 4.
    pub struct_html: Option<(String, String)>,
    /// New contents of element 8.
    pub plus_one_html: Option<String>,
    /// New text of the button component's first button, after its props changed.
    pub button_html: Option<String>,
}

pub struct DomPageView {
    pub state: PageStateView,
    pub active_branch: u8,
    pub button: DomButtonView,
    pub each_items: Seq<i32>,
    pub flags: u64,
}

/// The page's state, the shown branch of its #if block, the items of its
/// #each block, its button component, and the dirty flags they share.
pub struct DomPage {
    state: PageState,
    active_branch: u8,
    button: DomButton,
    each_items: Vec<i32>,
    flags: DirtyFlags,
}

impl View for DomPage {
    type V = DomPageView;

    closed spec fn view(&self) -> DomPageView {
        DomPageView {
            state: self.state@,
            active_branch: self.active_branch,
            button: self.button@,
            each_items: self.each_items@,
            flags: self.flags@,
        }
    }
}

pub open spec fn range_items(counter: i32) -> Seq<i32> {
    Seq::new(if counter > 0 { counter as nat } else { 0 }, |i: int| i as i32)
}

/// The state after a render pass's derive step and the flags it renders with.
pub open spec fn derived(p: DomPageView) -> DomPageView {
    if p.flags & 1 != 0 {
        DomPageView {
            state: PageStateView { counter_plus_one: (p.state.counter + 1) as i32, ..p.state },
            flags: p.flags | 8,
            ..p
        }
    } else {
        p
    }
}

/// `r` is the render of page `p` (after its derive step `d`), and `q` the page after it.
pub open spec fn renders(d: DomPageView, q: DomPageView, r: PageRender) -> bool {
    let f = d.flags;
    let c = d.state.counter;
    let shown = match r.if_update.swap_to {
        Some(b) => b,
        None => d.active_branch,
    };
    &&& q.state == d.state
    &&& q.flags == f
    &&& q.active_branch == shown
    &&& r.if_update.swap_to == (if f & 1 != 0 && spec_if_branch(c) != d.active_branch {
        Some(spec_if_branch(c))
    } else {
        None
    })
    &&& match r.if_update.refresh_text {
        Some(t) => shown == 0 && f & 2 != 0 && t@ == decimal(d.state.a as int),
        None => !(shown == 0 && f & 2 != 0),
    }
    &&& match r.counter_html {
        Some((h1, h3)) => f & 1 != 0 && h1@ == "Counter: "@ + decimal(c as int) && h3@ == "Count: "@
            + decimal(c as int),
        None => f & 1 == 0,
    }
    &&& match r.each_items {
        Some(v) => f & 1 != 0 && v@ == range_items(c) && q.each_items == range_items(c),
        None => f & 1 == 0 && q.each_items == d.each_items,
    }
    &&& match r.struct_html {
        Some((h2, h4)) => f & 2 != 0 && h2@ == "Struct A: "@ + decimal(d.state.a as int)
            + " (Click to update)"@ && h4@ == "Struct B: "@ + d.state.b,
        None => f & 2 == 0,
    }
    &&& match r.plus_one_html {
        Some(h) => f & 8 != 0 && h@ == "Counter plus one: "@ + decimal(
            d.state.counter_plus_one as int,
        ),
        None => f & 8 == 0,
    }
    &&& if f & 2 != 0 {
        &&& q.button == (DomButtonView { text: d.state.b, ..d.button })
        &&& r.button_html matches Some(h) && h@ == dom_button_label(q.button)
    } else {
        q.button == d.button && r.button_html is None
    }
}

impl DomPage {
    pub closed spec fn wf(&self) -> bool {
        self.state.wf() && self.button.wf()
    }

    /// Renders what the dirty flags mark (see `renders`), after deriving
    /// `counter_plus_one` from a changed counter; the flags are kept.
    pub fn apply(&mut self) -> (r: PageRender)
        requires
            old(self).wf(),
            old(self)@.flags & 1 != 0 ==> old(self)@.state.counter < i32::MAX,
        ensures
            final(self).wf(),
            renders(derived(old(self)@), final(self)@, r),
    {
        proof {
            lemma_or_bit_keeps(self.flags@, 8, 1);
            lemma_or_bit_keeps(self.flags@, 8, 2);
        }
        // update derived
        if self.flags.load() & 1 != 0 {
            self.state.counter_plus_one = *self.state.counter.get() + 1;
            self.flags.fetch_or(8);
        }
        let ghost d = self@;
        let flag_snapshot = self.flags.load();
        let c = *self.state.counter.get();
        let counter_html = if flag_snapshot & 1 != 0 {
            Some((label_int("Counter: ", c as i64), label_int("Count: ", c as i64)))
        } else {
            None
        };
        let if_update = if_frag_1_update(&self.state, self.active_branch, flag_snapshot);
        match if_update.swap_to {
            Some(b) => {
                self.active_branch = b;
            },
            None => {},
        }
        let each = each_frag_1_update(&self.state, flag_snapshot);
        if flag_snapshot & 1 != 0 {
            self.each_items = each_items(c);
            proof {
                assert(self.each_items@ =~= range_items(c));
            }
        }
        proof {
            if each is Some {
                assert(each->0@ =~= range_items(c));
            }
        }
        let struct_html = if flag_snapshot & 2 != 0 {
            let a = self.state.my_struct.get().a;
            Some(
                (
                    label_int_suffix("Struct A: ", a as i64, " (Click to update)"),
                    label_text("Struct B: ", self.state.my_struct.get().b.as_str()),
                ),
            )
        } else {
            None
        };
        let plus_one_html = if flag_snapshot & 8 != 0 {
            Some(label_int("Counter plus one: ", self.state.counter_plus_one as i64))
        } else {
            None
        };
        let mut button_html: Option<String> = None;
        if flag_snapshot & 2 != 0 {
            self.flags.store(0);
            self.button.set_text(self.state.my_struct.get().b.clone());
            self.flags.fetch_or(1);
            proof {
                assert(0u64 | 1u64 == 1u64) by (bit_vector);
                assert(1u64 & 3u64 != 0) by (bit_vector);
            }
            button_html = self.button.apply(&self.flags);
        }
        self.flags.store(flag_snapshot);
        PageRender { counter_html, if_update, each_items: each, struct_html, plus_one_html, button_html }
    }
}


/// The page after an event's handler ran (before rendering).
pub open spec fn dom_event(p: DomPageView, event: Seq<char>, path: Seq<u32>) -> DomPageView {
    let target = path.last();
    let rest = path.drop_last();
    let c = p.state.counter;
    if is_click(event) && target == 1 {
        DomPageView {
            state: PageStateView { counter: (c + 1) as i32, ..p.state },
            flags: p.flags | 1,
            ..p
        }
    } else if is_click(event) && target == 2 {
        DomPageView {
            state: PageStateView {
                counter: (c + 1) as i32,
                a: (p.state.a + c + 1) as i32,
                b: "Count is "@ + decimal(c + 1),
                ..p.state
            },
            flags: (p.flags | 1) | 2,
            ..p
        }
    } else if target == 3 {
        let inner = rest.last();
        let b2 = if is_click(event) && inner == 1 {
            DomButtonView { button_counter: (p.button.button_counter + 1) as i32, ..p.button }
        } else if is_click(event) && inner == 2 {
            DomButtonView { func_call: p.button.button_counter, ..p.button }
        } else {
            p.button
        };
        let child_flags = if is_click(event) && inner == 1 {
            p.flags | 1
        } else if is_click(event) && inner == 2 {
            p.flags | 2
        } else {
            p.flags
        };
        if child_flags & 2 != 0 {
            DomPageView {
                state: PageStateView { counter: b2.func_call, ..p.state },
                button: b2,
                flags: 1,
                ..p
            }
        } else {
            DomPageView { button: b2, flags: 0, ..p }
        }
    } else if target == 6 {
        let index = rest.last();
        let inner = rest.drop_last().last();
        if is_click(event) && inner == 1 {
            DomPageView {
                state: PageStateView { counter: p.each_items[index as int], ..p.state },
                flags: p.flags | 1,
                ..p
            }
        } else {
            p
        }
    } else {
        p
    }
}

/// The event can be handled without a panic or an overflow.
pub open spec fn dom_event_ok(p: DomPageView, event: Seq<char>, path: Seq<u32>) -> bool {
    let target = path.last();
    let rest = path.drop_last();
    let c = p.state.counter;
    let handled_here = is_click(event) && (target == 1 || target == 2);
    &&& path.len() > 0
    &&& is_click(event) && target == 1 ==> c + 6 <= i32::MAX
    &&& is_click(event) && target == 2 ==> c + 6 <= i32::MAX && i32::MIN <= p.state.a + c + 1
        <= i32::MAX
    &&& !handled_here && target == 3 ==> rest.len() > 0 && (is_click(event) && rest.last() == 1
        ==> p.button.button_counter < i32::MAX)
    &&& !handled_here && target == 6 ==> rest.len() >= 2 && rest.last() < p.each_items.len()
    &&& dom_event(p, event, path).flags & 1 != 0 ==> dom_event(p, event, path).state.counter
        < i32::MAX
}

/// The state of a new page and the button component's first render.
pub open spec fn dom_initial() -> DomPageView {
    DomPageView {
        state: PageStateView { counter: 1, a: 10, b: "hello"@, counter_plus_one: 0 },
        active_branch: 1,
        button: DomButtonView { text: Seq::empty(), func_call: 0, button_counter: 0 },
        each_items: seq![0i32],
        flags: u64::MAX,
    }
}

impl DomPage {
    /// Creates the page's state (running its init code) with its #if branch,
    /// #each items and button component, then renders it with every flag
    /// dirty. Returns the page, the button's first text and the page's render.
    pub fn new() -> (res: (Self, Option<String>, PageRender))
        ensures
            res.0.wf(),
            res.1 matches Some(h) && h@ == dom_button_label(dom_initial().button),
            renders(derived(dom_initial()), res.0@, res.2),
    {
        let mut flags = DirtyFlags::new();
        let mut state = PageState {
            counter: MutateTracker::new(0, 0),
            my_struct: MutateTracker::new(MyStruct { a: 10, b: String::from_str("hello") }, 1),
            counter_plus_one: 0,
        };
        state.init(&mut flags);
        let active_branch = if_branch(*state.counter.get());
        let items = each_items(*state.counter.get());
        let (button, button_html) = DomButton::new(&mut flags);
        let mut page = DomPage { state, active_branch, button, each_items: items, flags };
        proof {
            assert(page@.each_items =~= seq![0i32]);
        }
        // mark all as dirty for the initial render
        page.flags.store(u64::MAX);
        let r = page.apply();
        (page, button_html, r)
    }

    pub fn active_branch(&self) -> (b: u8)
        ensures
            b == self@.active_branch,
    {
        self.active_branch
    }

    /// The text of the first #if branch's value node: the struct's `a`.
    pub fn a_text(&self) -> (s: String)
        ensures
            s@ == decimal(self@.state.a as int),
    {
        decimal_string(self.state.my_struct.get().a as i64)
    }

    pub fn each_items(&self) -> (items: &Vec<i32>)
        ensures
            items@ == self@.each_items,
    {
        &self.each_items
    }

    /// Processes an event at `target_path` (innermost target last): runs the
    /// handler, passes events inside the button down (with the button's own
    /// render, returned first) and takes a changed bound prop back, then renders.
    pub fn proc(&mut self, event_type: &str, target_path: Vec<u32>) -> (res: (
        Option<String>,
        PageRender,
    ))
        requires
            old(self).wf(),
            dom_event_ok(old(self)@, event_type@, target_path@),
        ensures
            final(self).wf(),
            renders(derived(dom_event(old(self)@, event_type@, target_path@)), final(self)@, res.1),
    {
        proof {
            lemma_low_bits();
        }
        let ghost p = self@;
        let ghost path = target_path@;
        let mut child_html: Option<String> = None;
        let mut target_path = target_path;
        let target = target_path.pop().unwrap();
        let click = str_eq(event_type, "click");
        if click && target == 1 {
            self.state.increment(&mut self.flags);
        } else if click && target == 2 {
            self.state.update_struct(true, &mut self.flags);
        } else if target == 3 {
            self.button.proc(event_type, target_path, &mut self.flags);
            child_html = self.button.apply(&self.flags);
            let child_bindable_flags = self.flags.load();
            self.flags.store(0);
            if child_bindable_flags & 2 != 0 {
                let v = self.button.func_call();
                let c = self.state.counter.get_mut(&mut self.flags);
                *c = v;
                proof {
                    assert(0u64 | 1u64 == 1u64) by (bit_vector);
                }
            }
        } else if target == 6 {
            let index = target_path.pop().unwrap();
            let item = self.each_items[index as usize];
            let inner = target_path.pop().unwrap();
            if str_eq(event_type, "click") && inner == 1 {
                let c = self.state.counter.get_mut(&mut self.flags);
                *c = item;
            }
        }
        proof {
            assert(self@ == dom_event(p, event_type@, path));
        }
        let r = self.apply();
        (child_html, r)
    }
}


/// A render with the counter dirty leaves the #if block on the branch the
/// counter selects and the #each block on the items `0..counter`.
pub proof fn law_render_follows_counter(p: DomPageView, q: DomPageView, r: PageRender)
    requires
        p.flags & 1 != 0,
        p.state.counter < i32::MAX,
        renders(derived(p), q, r),
    ensures
        q.active_branch == spec_if_branch(p.state.counter),
        q.each_items == range_items(p.state.counter),
        q.state.counter_plus_one == p.state.counter + 1,
        r.counter_html is Some,
{
    let f = p.flags;
    assert((f | 8) & 1 != 0) by (bit_vector)
        requires
            f & 1 != 0,
    ;
}


impl DomPage {
    /// Whether `proc` can process this event without a panic or an
    /// arithmetic overflow.
    pub fn can_proc(&self, event_type: &str, target: &Vec<u32>) -> (ok: bool)
        requires
            self.wf(),
        ensures
            ok == dom_event_ok(self@, event_type@, target@),
    {
        let ghost p = self@;
        let f = self.flags.load();
        proof {
            assert((f | 1) & 1 != 0) by (bit_vector);
            assert(((f | 1) | 2) & 1 != 0) by (bit_vector);
            assert(1u64 & 1 != 0) by (bit_vector);
            assert(0u64 & 1 == 0) by (bit_vector);
        }
        if target.len() == 0 {
            return false;
        }
        let t = target[target.len() - 1];
        let click = str_eq(event_type, "click");
        let c = *self.state.counter.get();
        let bc = *self.button.button_counter.get();
        proof {
            assert(target@.last() == t);
        }
        if click && t == 1 {
            c <= i32::MAX - 6
        } else if click && t == 2 {
            let a = self.state.my_struct.get().a;
            c <= i32::MAX - 6 && (a as i64) + (c as i64) + 1 <= i32::MAX as i64 && (a as i64) + (
            c as i64) + 1 >= i32::MIN as i64
        } else if t == 3 {
            if target.len() < 2 {
                return false;
            }
            let inner = target[target.len() - 2];
            proof {
                assert(target@.drop_last().last() == inner);
            }
            let counts = click && inner == 1;
            let binds = click && inner == 2;
            let child_flags = if counts {
                f | 1
            } else if binds {
                f | 2
            } else {
                f
            };
            let bound_value = if binds {
                bc
            } else {
                *self.button.func_call.get()
            };
            (!counts || bc < i32::MAX) && (child_flags & 2 == 0 || bound_value < i32::MAX)
        } else if t == 6 {
            if target.len() < 3 {
                return false;
            }
            let index = target[target.len() - 2];
            let inner = target[target.len() - 3];
            proof {
                assert(target@.drop_last().last() == index);
                assert(target@.drop_last().drop_last().last() == inner);
            }
            if (index as usize) >= self.each_items.len() {
                return false;
            }
            if click && inner == 1 {
                self.each_items[index as usize] < i32::MAX
            } else {
                f & 1 == 0 || c < i32::MAX
            }
        } else {
            f & 1 == 0 || c < i32::MAX
        }
    }
}


/// "Set parent" in the button component (its element 2, at path `[2, 3]`)
/// passes the button's count to the page through the bound function prop:
/// the page's counter becomes the button's count, and the render shows it in
/// both counter texts.
pub proof fn law_dom_set_parent_sets_counter(p: DomPageView, path: Seq<u32>, q: DomPageView, r: PageRender)
    requires
        path.len() >= 2,
        path.last() == 3,
        path.drop_last().last() == 2,
        renders(derived(dom_event(p, "click"@, path)), q, r),
    ensures
        dom_event(p, "click"@, path).state.counter == p.button.button_counter,
        q.state.counter == p.button.button_counter,
        q.button.func_call == p.button.button_counter,
        r.counter_html matches Some((h1, h3)) && h1@ == "Counter: "@ + decimal(
            p.button.button_counter as int,
        ) && h3@ == "Count: "@ + decimal(p.button.button_counter as int),
{
    lemma_or_bit_keeps(p.flags, 2, 1);
    lemma_or_bit_keeps(1, 8, 1);
    assert(1u64 & 1 != 0) by (bit_vector);
}

/// A click on the page's second button counts one and adds the new count to
/// the struct's `a`, and describes the new count in its `b`.
pub proof fn law_dom_struct_click_adds_counter(p: DomPageView, path: Seq<u32>)
    requires
        path.len() > 0,
        path.last() == 2,
        p.state.counter < i32::MAX,
        i32::MIN <= p.state.a + p.state.counter + 1 <= i32::MAX,
    ensures
        dom_event(p, "click"@, path).state.counter == p.state.counter + 1,
        dom_event(p, "click"@, path).state.a == p.state.a + p.state.counter + 1,
        dom_event(p, "click"@, path).state.b == "Count is "@ + decimal(p.state.counter + 1),
{
}


/// A render with the counter dirty shows the #if block's first branch
/// exactly when the counter is above 5, and leaves the #each block with the
/// items `0, 1, .., counter - 1`.
pub proof fn law_dom_render_if_and_each(p: DomPageView, q: DomPageView, r: PageRender)
    requires
        p.flags & 1 != 0,
        renders(derived(p), q, r),
    ensures
        q.active_branch == (if p.state.counter > 5 { 0u8 } else { 1u8 }),
        q.each_items.len() == (if p.state.counter > 0 { p.state.counter as int } else { 0 }),
        forall|i: int| 0 <= i < q.each_items.len() ==> q.each_items[i] == i,
{
    lemma_or_bit_keeps(p.flags, 8, 1);
}

} // verus!
