//! Helpers shared by the other modules.

use crate::strings::{join, joined, texts};
use vstd::prelude::*;
use vstd::string::StringExecFns;

verus! {

/// A list laid out: `[]` where it is empty, else one item a line, each after two
/// blanks, with commas between, in square brackets.
pub open spec fn listing(items: Seq<Seq<char>>) -> Seq<char> {
    if items.len() == 0 {
        "[]"@
    } else {
        "[\n"@ + joined(Seq::new(items.len(), |i: int| "  "@ + items[i]), ",\n"@) + "\n]"@
    }
}

/// Lays out the list of what `t_to_string` makes of each item.
pub fn iterator_to_string<T, F: Fn(T) -> String>(t_to_string: F, it: Vec<T>) -> (s: String)
    requires
        forall|i: int| 0 <= i < it@.len() ==> call_requires(t_to_string, (#[trigger] it@[i],)),
    ensures
        exists|parts: Seq<String>|
            {
                &&& parts.len() == it@.len()
                &&& forall|i: int|
                    0 <= i < it@.len() ==> call_ensures(t_to_string, (it@[i],), #[trigger] parts[i])
                &&& s@ == listing(texts(parts))
            },
{
    let mut it = it;
    let ghost given = it@;
    let mut elems: Vec<String> = Vec::new();
    let ghost mut parts: Seq<String> = Seq::empty();
    let mut rev: Vec<T> = Vec::new();
    while it.len() > 0
        invariant
            it@.len() + rev@.len() == given.len(),
            forall|i: int| 0 <= i < it@.len() ==> it@[i] == given[i],
            forall|i: int| 0 <= i < rev@.len() ==> rev@[i] == given[given.len() - 1 - i],
        decreases it@.len(),
    {
        let x = it.pop().unwrap();
        rev.push(x);
    }
    while rev.len() > 0
        invariant
            elems@.len() + rev@.len() == given.len(),
            parts.len() == elems@.len(),
            forall|i: int| 0 <= i < rev@.len() ==> rev@[i] == given[given.len() - 1 - i],
            forall|i: int| 0 <= i < given.len() ==> call_requires(t_to_string, (#[trigger] given[i],)),
            forall|i: int|
                0 <= i < parts.len() ==> call_ensures(t_to_string, (given[i],), #[trigger] parts[i]),
            forall|i: int| 0 <= i < elems@.len() ==> (#[trigger] elems@[i])@ == "  "@ + parts[i]@,
        decreases rev@.len(),
    {
        let x = rev.pop().unwrap();
        let ghost k = elems@.len() as int;
        assert(x == given[k]);
        let text = t_to_string(x);
        let mut line = String::from_str("  ");
        line.append(text.as_str());
        elems.push(line);
        proof {
            parts = parts.push(text);
        }
    }
    proof {
        assert(texts(elems@) =~= Seq::new(
            texts(parts).len(),
            |i: int| "  "@ + texts(parts)[i],
        ));
    }
    if elems.len() == 0 {
        String::from_str("[]")
    } else {
        let mut s = String::from_str("[\n");
        s.append(join(&elems, ",\n").as_str());
        s.append("\n]");
        s
    }
}

/// Lays out the list of what `t_to_string` makes of each item of the list.
pub fn vec_to_string<T, F: Fn(&T) -> String>(t_to_string: F, v: &Vec<T>) -> (s: String)
    requires
        forall|i: int| 0 <= i < v@.len() ==> call_requires(t_to_string, (&#[trigger] v@[i],)),
    ensures
        exists|parts: Seq<String>|
            {
                &&& parts.len() == v@.len()
                &&& forall|i: int|
                    0 <= i < v@.len() ==> call_ensures(t_to_string, (&v@[i],), #[trigger] parts[i])
                &&& s@ == listing(texts(parts))
            },
{
    let mut elems: Vec<String> = Vec::new();
    let ghost mut parts: Seq<String> = Seq::empty();
    let mut k: usize = 0;
    while k < v.len()
        invariant
            k <= v@.len(),
            elems@.len() == k,
            parts.len() == k,
            forall|i: int| 0 <= i < v@.len() ==> call_requires(t_to_string, (&#[trigger] v@[i],)),
            forall|i: int| 0 <= i < k ==> call_ensures(t_to_string, (&v@[i],), #[trigger] parts[i]),
            forall|i: int| 0 <= i < k ==> (#[trigger] elems@[i])@ == "  "@ + parts[i]@,
        decreases v@.len() - k,
    {
        let text = t_to_string(&v[k]);
        let mut line = String::from_str("  ");
        line.append(text.as_str());
        elems.push(line);
        proof {
            parts = parts.push(text);
        }
        k = k + 1;
    }
    proof {
        assert(texts(elems@) =~= Seq::new(
            texts(parts).len(),
            |i: int| "  "@ + texts(parts)[i],
        ));
    }
    if elems.len() == 0 {
        String::from_str("[]")
    } else {
        let mut s = String::from_str("[\n");
        s.append(join(&elems, ",\n").as_str());
        s.append("\n]");
        s
    }
}

/// A list written out: `[]` where it is empty, else the items in square brackets
/// that stand on lines of their own, with a comma and a new line between each two.
pub open spec fn written(items: Seq<Seq<char>>) -> Seq<char> {
    if items.len() == 0 {
        "[]"@
    } else {
        "[\n"@ + joined(items, ",\n"@) + "\n]"@
    }
}

/// Writes out the list of the texts.
pub fn written_list(parts: &Vec<String>) -> (s: String)
    ensures
        s@ == written(texts(parts@)),
{
    if parts.len() == 0 {
        String::from_str("[]")
    } else {
        let mut s = String::from_str("[\n");
        s.append(join(parts, ",\n").as_str());
        s.append("\n]");
        s
    }
}

/// Writes behind `f` the list of what `write_t` makes of each item.
pub fn write_iterator<T: Copy, F: Fn(T) -> String>(write_t: F, f: &mut String, it: &Vec<T>)
    requires
        forall|i: int| 0 <= i < it@.len() ==> call_requires(write_t, (#[trigger] it@[i],)),
    ensures
        exists|parts: Seq<String>|
            {
                &&& parts.len() == it@.len()
                &&& forall|i: int|
                    0 <= i < it@.len() ==> call_ensures(write_t, (it@[i],), #[trigger] parts[i])
                &&& final(f)@ == old(f)@ + written(texts(parts))
            },
{
    let mut elems: Vec<String> = Vec::new();
    let mut k: usize = 0;
    while k < it.len()
        invariant
            k <= it@.len(),
            elems@.len() == k,
            forall|i: int| 0 <= i < it@.len() ==> call_requires(write_t, (#[trigger] it@[i],)),
            forall|i: int| 0 <= i < k ==> call_ensures(write_t, (it@[i],), #[trigger] elems@[i]),
        decreases it@.len() - k,
    {
        let text = write_t(it[k]);
        elems.push(text);
        k = k + 1;
    }
    let list = written_list(&elems);
    f.append(list.as_str());
    proof {
        assert(elems@.len() == it@.len());
    }
}

/// Writes behind `f` the list of what `write_t` makes of each item of the list.
pub fn write_vec<T, F: Fn(&T) -> String>(write_t: F, f: &mut String, v: &Vec<T>)
    requires
        forall|i: int| 0 <= i < v@.len() ==> call_requires(write_t, (&#[trigger] v@[i],)),
    ensures
        exists|parts: Seq<String>|
            {
                &&& parts.len() == v@.len()
                &&& forall|i: int|
                    0 <= i < v@.len() ==> call_ensures(write_t, (&v@[i],), #[trigger] parts[i])
                &&& final(f)@ == old(f)@ + written(texts(parts))
            },
{
    let mut elems: Vec<String> = Vec::new();
    let mut k: usize = 0;
    while k < v.len()
        invariant
            k <= v@.len(),
            elems@.len() == k,
            forall|i: int| 0 <= i < v@.len() ==> call_requires(write_t, (&#[trigger] v@[i],)),
            forall|i: int| 0 <= i < k ==> call_ensures(write_t, (&v@[i],), #[trigger] elems@[i]),
        decreases v@.len() - k,
    {
        let text = write_t(&v[k]);
        elems.push(text);
        k = k + 1;
    }
    let list = written_list(&elems);
    f.append(list.as_str());
    proof {
        assert(elems@.len() == v@.len());
    }
}

/// Whether an item is entered or left by a visitor.
#[derive(Clone, Copy, Debug, PartialEq, Eq, Structural, Hash)]
pub enum VisitEvent {
    Enter,
    Exit,
}

#[verifier::external_type_specification]
#[verifier::external_body]
pub struct ExEvent(derive_visitor::Event);

/// Whether an event of the `derive_visitor` crate is its `Enter`.
pub uninterp spec fn event_is_enter(e: derive_visitor::Event) -> bool;

/// Tells the two variants of `derive_visitor::Event` apart: `Enter` gives `Enter`,
/// `Exit` gives `Exit`.
#[verifier::external_body]
pub fn visit_event_from(value: &derive_visitor::Event) -> (r: VisitEvent)
    ensures
        r == if event_is_enter(*value) {
            VisitEvent::Enter
        } else {
            VisitEvent::Exit
        },
{
    match value {
        derive_visitor::Event::Enter => VisitEvent::Enter,
        derive_visitor::Event::Exit => VisitEvent::Exit,
    }
}

/// Makes the variant of `derive_visitor::Event` of the same name.
#[verifier::external_body]
pub fn visit_event_into(value: VisitEvent) -> (r: derive_visitor::Event)
    ensures
        event_is_enter(r) == (value is Enter),
{
    match value {
        VisitEvent::Enter => derive_visitor::Event::Enter,
        VisitEvent::Exit => derive_visitor::Event::Exit,
    }
}

/// An event passed to the outside crate and back is the same event.
pub fn visit_event_round_trip(value: VisitEvent) -> (r: VisitEvent)
    ensures
        r == value,
{
    let e = visit_event_into(value);
    visit_event_from(&e)
}

/// The bytes that must be left on the stack before a call that may go deep.
pub const RED_ZONE: usize = 100 * 1024;

/// The bytes of a stack that is added when the old one runs short.
pub const STACK_PER_RECURSION: usize = 1024 * 1024;

/// `stacker::maybe_grow` runs the callback, on a new stack where fewer than
/// `red_zone` bytes are left of the current one, and returns what the callback returns.
pub assume_specification<R, F: FnOnce() -> R>[ stacker::maybe_grow::<R, F> ](
    red_zone: usize,
    stack_size: usize,
    callback: F,
) -> (r: R)
    requires
        callback.requires(()),
    ensures
        callback.ensures((), r),
;

/// Runs `f` with enough stack for it: call this where recursion may go deep.
pub fn ensure_sufficient_stack<R, F: FnOnce() -> R>(f: F) -> (r: R)
    requires
        f.requires(()),
    ensures
        f.ensures((), r),
{
    stacker::maybe_grow(RED_ZONE, STACK_PER_RECURSION, f)
}

} // verus!
