use vstd::prelude::*;
use vstd::string::*;
use crate::dirty::{lemma_low_bits, DirtyFlags, MutateTracker};
use crate::patch_page::is_click;
use crate::routing::str_eq;
use crate::text::{decimal, label_text, text_colon_int};

verus! {

/// State of the top-level router component (it holds no state yet).
pub struct TopRouterState {}

pub struct ButtonStateView {
    pub text: Seq<char>,
    pub func_call: i32,
    pub button_counter: i32,
}

/// The button component's state: the `text` prop, the bound `func_call`
/// prop (dirty bit 1, marked by hand), and the reactive counter (id 0).
pub struct ButtonState {
    pub text: String,
    pub func_call: i32,
    button_counter: MutateTracker<i32>,
}

impl View for ButtonState {
    type V = ButtonStateView;

    closed spec fn view(&self) -> ButtonStateView {
        ButtonStateView {
            text: self.text@,
            func_call: self.func_call,
            button_counter: self.button_counter.value(),
        }
    }
}

pub open spec fn button_text(b: ButtonStateView) -> Seq<char> {
    b.text + ": "@ + decimal(b.button_counter as int)
}

impl ButtonState {
    pub closed spec fn wf(&self) -> bool {
        self.button_counter.spec_id() == 0
    }

    /// The state for the props `(text,)`.
    pub fn new(props: (String,)) -> (s: Self)
        ensures
            s.wf(),
            s@ == (ButtonStateView { text: props.0@, func_call: 0, button_counter: 0 }),
    {
        ButtonState { text: props.0, func_call: 0, button_counter: MutateTracker::new(0, 0) }
    }

    pub fn button_counter(&self) -> (c: i32)
        ensures
            c == self@.button_counter,
    {
        *self.button_counter.get()
    }

    /// Handles an event at the last element of `target_path`: the first button
    /// counts, the second passes the count to the bound prop and marks it
    /// dirty for the parent; events in the snippet (target 3) change no state.
    pub fn proc(&mut self, event_type: &str, target_path: Vec<u32>, flags: &mut DirtyFlags)
        requires
            old(self).wf(),
            target_path.len() > 0,
            is_click(event_type@) && target_path@.last() == 1 ==> old(self)@.button_counter
                < i32::MAX,
        ensures
            final(self).wf(),
            is_click(event_type@) && target_path@.last() == 1 ==> final(self)@ == (ButtonStateView {
                button_counter: (old(self)@.button_counter + 1) as i32,
                ..old(self)@
            }) && final(flags)@ == old(flags)@ | 1,
            is_click(event_type@) && target_path@.last() == 2 ==> final(self)@ == (ButtonStateView {
                func_call: old(self)@.button_counter,
                ..old(self)@
            }) && final(flags)@ == old(flags)@ | 2,
            !(is_click(event_type@) && (target_path@.last() == 1 || target_path@.last() == 2))
                ==> final(self)@ == old(self)@ && final(flags)@ == old(flags)@,
    {
        proof {
            lemma_low_bits();
        }
        let mut target_path = target_path;
        let target = target_path.pop().unwrap();
        let click = str_eq(event_type, "click");
        if click && target == 1 {
            let c = self.button_counter.get_mut(flags);
            *c = *c + 1;
        } else if click && target == 2 {
            self.func_call = *self.button_counter.get();
            flags.fetch_or(2);
        }
    }

    /// The button's text, `"{text}: {counter}"`.
    pub fn label(&self) -> (s: String)
        ensures
            s@ == button_text(self@),
    {
        text_colon_int(self.text.as_str(), *self.button_counter.get() as i64)
    }

    /// The new text of the first button when the counter (bit 0) is dirty.
    pub fn update_html(&self, flags: u64) -> (html: Option<String>)
        ensures
            match html {
                Some(h) => flags & 1 != 0 && h@ == button_text(self@),
                None => flags & 1 == 0,
            },
    {
        if flags & 1 != 0 {
            Some(self.label())
        } else {
            None
        }
    }
}

/// The greeting of the button's snippet, `"Hello, {text}!"`, when bit 3 is dirty.
pub fn snippet_greeting(text: &str, flags: u64) -> (html: Option<String>)
    ensures
        match html {
            Some(h) => flags & 8 != 0 && h@ == "Hello, "@ + text@ + "!"@,
            None => flags & 8 == 0,
        },
{
    if flags & 8 != 0 {
        let s = label_text("Hello, ", text);
        Some(s.concat("!"))
    } else {
        None
    }
}

/// The snippet's props computed from the state by their closures.
pub fn init_props<S, F0: Fn(&S) -> i32, F1: Fn(&S) -> String>(
    state: &S,
    closures: &(F0, F1),
) -> (props: (i32, String))
    requires
        closures.0.requires((state,)),
        closures.1.requires((state,)),
    ensures
        closures.0.ensures((state,), props.0),
        closures.1.ensures((state,), props.1),
{
    let prop1 = (closures.0)(state);
    let prop2 = (closures.1)(state);
    (prop1, prop2)
}

/// Recomputes the props whose mask meets the dirty flags, and marks a
/// recomputed prop dirty for the snippet (bit 3 for the first, bit 4 for the
/// second) only when its new value differs from the old one. The second mask
/// is tested against the flags as the first step left them.
pub fn update_props<S, F0: Fn(&S) -> i32, F1: Fn(&S) -> String>(
    props: &mut (i32, String),
    state: &S,
    closures: &(F0, F1),
    masks: (u64, u64),
    flags: &mut u64,
)
    requires
        closures.0.requires((state,)),
        closures.1.requires((state,)),
    ensures
        ({
            let f0 = *old(flags);
            let c0 = f0 & masks.0 != 0;
            let f1 = if c0 && final(props).0 != old(props).0 {
                f0 | 8
            } else {
                f0
            };
            let c1 = f1 & masks.1 != 0;
            let f2 = if c1 && final(props).1@ != old(props).1@ {
                f1 | 16
            } else {
                f1
            };
            &&& *final(flags) == f2
            &&& if c0 {
                closures.0.ensures((state,), final(props).0)
            } else {
                final(props).0 == old(props).0
            }
            &&& if c1 {
                closures.1.ensures((state,), final(props).1)
            } else {
                final(props).1 == old(props).1
            }
        }),
{
    if *flags & masks.0 != 0 {
        let v = (closures.0)(state);
        if v != props.0 {
            *flags = *flags | 8;
        }
        props.0 = v;
    }
    if *flags & masks.1 != 0 {
        let v = (closures.1)(state);
        if !str_eq(v.as_str(), props.1.as_str()) {
            *flags = *flags | 16;
        }
        props.1 = v;
    }
}

/// The items `0..5` of the snippet switcher's #each block, generated when the
/// first state bit is dirty.
pub fn switcher_each_items(flags: u64) -> (items: Option<Vec<i32>>)
    ensures
        (items is Some) == (flags & 1 != 0),
        items matches Some(v) ==> v@ == seq![0i32, 1, 2, 3, 4],
{
    if flags & 1 != 0 {
        Some(five_items())
    } else {
        None
    }
}

/// The items `0..5` of the scoped snippets' #each block, generated on every update.
pub fn scoped_each_items(flags: u64) -> (items: Option<Vec<i32>>)
    ensures
        items matches Some(v) && v@ == seq![0i32, 1, 2, 3, 4],
{
    Some(five_items())
}

fn five_items() -> (v: Vec<i32>)
    ensures
        v@ == seq![0i32, 1, 2, 3, 4],
{
    let mut v: Vec<i32> = Vec::new();
    let mut i: i32 = 0;
    while i < 5
        invariant
            0 <= i <= 5,
            v@ == Seq::new(i as nat, |k: int| k as i32),
        decreases 5 - i,
    {
        v.push(i);
        proof {
            assert(v@ =~= Seq::new((i + 1) as nat, |k: int| k as i32));
        }
        i += 1;
    }
    proof {
        assert(v@ =~= seq![0i32, 1, 2, 3, 4]);
    }
    v
}


/// The parent of the bindable snippet: an "input" event on its input element
/// (target 1) stores the element's value in the bound `message` state.
pub fn message_input(
    message: &mut MutateTracker<String>,
    event_type: &str,
    target_path: Vec<u32>,
    value: String,
    flags: &mut DirtyFlags,
)
    requires
        target_path.len() > 0,
        old(message).spec_id() < 64,
    ensures
        final(message).spec_id() == old(message).spec_id(),
        event_type@ == "input"@ && target_path@.last() == 1 ==> final(message).value()@ == value@
            && final(flags)@ == old(flags)@ | crate::dirty::bit(old(message).spec_id()),
        !(event_type@ == "input"@ && target_path@.last() == 1) ==> final(message).value()
            == old(message).value() && final(flags)@ == old(flags)@,
{
    let mut target_path = target_path;
    let target = target_path.pop().unwrap();
    if str_eq(event_type, "input") && target == 1 {
        let m = message.get_mut(flags);
        *m = value;
    }
}

} // verus!
