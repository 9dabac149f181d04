//! The internal state of the iterators that built-ins hand out.
use vstd::prelude::*;
use crate::array_callbacks::ArrayIter;
use crate::interp::Value;
use crate::iter_helper::{Helper, IterHelper};
use crate::object::copy_list;
use crate::regexp::RegExpStringIter;
use crate::set_methods::CollectionIter;
use crate::string_methods::StringIter;
use crate::zip::{Concat, ConcatIter, Zip, ZipIter};

verus! {

/// What an iterator object keeps from one step to the next.
pub enum State {
    Array(ArrayIter),
    Text(StringIter),
    Matches(RegExpStringIter),
    Entries(CollectionIter),
    /// A wrapper of `Iterator.from`: the iterator and its `next`.
    Wrapped(Value, Value),
    Helper(IterHelper),
    Zipped(ZipIter),
    Concat(ConcatIter),
}

/// A state as contracts speak of it.
pub enum StateView {
    Array(ArrayIter),
    Text(StringIter),
    Matches(RegExpStringIter),
    Entries(CollectionIter),
    Wrapped(Value, Value),
    Helper(Helper),
    Zipped(Zip),
    Concat(Concat),
}

impl View for State {
    type V = StateView;

    open spec fn view(&self) -> StateView {
        match *self {
            State::Array(s) => StateView::Array(s),
            State::Text(s) => StateView::Text(s),
            State::Matches(s) => StateView::Matches(s),
            State::Entries(s) => StateView::Entries(s),
            State::Wrapped(it, next) => StateView::Wrapped(it, next),
            State::Helper(s) => StateView::Helper(s@),
            State::Zipped(s) => StateView::Zipped(s@),
            State::Concat(s) => StateView::Concat(s@),
        }
    }
}

fn copy_flags(v: &Vec<bool>) -> (r: Vec<bool>)
    ensures
        r@ == v@,
{
    let mut out: Vec<bool> = Vec::new();
    let mut j: usize = 0;
    while j < v.len()
        invariant
            j <= v@.len(),
            out@ == v@.subrange(0, j as int),
        decreases v@.len() - j,
    {
        out.push(v[j]);
        assert(v@.subrange(0, j + 1) =~= v@.subrange(0, j as int).push(v@[j as int]));
        j += 1;
    }
    assert(v@.subrange(0, j as int) =~= v@);
    out
}

pub fn copy_helper(h: &IterHelper) -> (r: IterHelper)
    ensures
        r@ == h@,
{
    IterHelper { state: h.state, buffer: copy_list(&h.buffer) }
}

pub fn copy_zip(z: &ZipIter) -> (r: ZipIter)
    ensures
        r@ == z@,
{
    ZipIter {
        iters: copy_list(&z.iters),
        nexts: copy_list(&z.nexts),
        closed: copy_flags(&z.closed),
        pad: copy_list(&z.pad),
        keys: copy_list(&z.keys),
        keyed: z.keyed,
        mode: z.mode,
        finished: z.finished,
        running: z.running,
        started: z.started,
    }
}

pub fn copy_concat(c: &ConcatIter) -> (r: ConcatIter)
    ensures
        r@ == c@,
{
    ConcatIter {
        items: copy_list(&c.items),
        methods: copy_list(&c.methods),
        index: c.index,
        current: c.current,
        current_next: c.current_next,
        done: c.done,
        running: c.running,
        started: c.started,
    }
}

pub fn copy_state(s: &State) -> (r: State)
    ensures
        r@ == s@,
{
    match s {
        State::Array(s) => State::Array(*s),
        State::Text(s) => State::Text(*s),
        State::Matches(s) => State::Matches(*s),
        State::Entries(s) => State::Entries(*s),
        State::Wrapped(it, next) => State::Wrapped(*it, *next),
        State::Helper(s) => State::Helper(copy_helper(s)),
        State::Zipped(s) => State::Zipped(copy_zip(s)),
        State::Concat(s) => State::Concat(copy_concat(s)),
    }
}

} // verus!
