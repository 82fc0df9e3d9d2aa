//! The variables of one function call.
//!
//! Every name is a variable. One that was never written holds the unset
//! value, and the first mention of it puts it into the frame with that
//! value.

use vstd::prelude::*;
use crate::table::Table;
use crate::value::{Data, DataView};

verus! {

/// The mathematical content of a [`Frame`]: the values of the variables that
/// were mentioned, by name.
pub type FrameView = Map<Seq<char>, DataView>;

/// The value of the variable `name`: what the frame holds for it, and the
/// unset value where it holds nothing.
pub open spec fn value_of(frame: FrameView, name: Seq<char>) -> DataView {
    if frame.contains_key(name) {
        frame[name]
    } else {
        DataView::Unset
    }
}

/// The frame after a mention of the variable `name`: the variable is in it,
/// and its value is what it was.
pub open spec fn mentioned(frame: FrameView, name: Seq<char>) -> FrameView {
    frame.insert(name, value_of(frame, name))
}

/// Whether no variable of the frame holds a reference to a variable.
pub open spec fn holds_values(frame: FrameView) -> bool {
    forall|name: Seq<char>| frame.contains_key(name) ==> !(#[trigger] frame[name] is Var)
}

/// The variables of one function call.
#[derive(Debug)]
pub struct Frame {
    variables: Table<Data>,
}

impl View for Frame {
    type V = FrameView;

    closed spec fn view(&self) -> FrameView {
        self.variables@.map_values(|d: Data| d@)
    }
}

impl Frame {
    /// Whether the frame is well formed: no variable holds a reference.
    pub closed spec fn wf(&self) -> bool {
        self.variables.wf() && holds_values(self@)
    }

    /// A frame in which no variable was mentioned yet.
    pub fn new() -> (r: Frame)
        ensures
            r.wf(),
            r@ == FrameView::empty(),
    {
        let r = Frame { variables: Table::new() };
        assert(r@ =~= FrameView::empty());
        r
    }

    /// The value that the frame holds for `name`, if the variable was ever
    /// mentioned. This is no mention of it.
    pub fn peek(&self, name: &String) -> (r: Option<&Data>)
        requires
            self.wf(),
        ensures
            match r {
                Some(value) => self@.contains_key(name@) && value@ == self@[name@],
                None => !self@.contains_key(name@),
            },
    {
        self.variables.get(name)
    }

    /// Reads the variable `name`, which is a mention of it.
    pub fn read(&mut self, name: &String) -> (r: Data)
        requires
            old(self).wf(),
        ensures
            final(self).wf(),
            r@ == value_of(old(self)@, name@),
            !(r@ is Var),
            final(self)@ == mentioned(old(self)@, name@),
    {
        let found = match self.variables.get(name) {
            Some(value) => Some(value.clone()),
            None => None,
        };
        match found {
            Some(value) => {
                assert(self@ =~= mentioned(self@, name@));
                value
            },
            None => {
                self.variables.insert(name.clone(), Data::default());
                assert(self@ =~= mentioned(old(self)@, name@));
                Data::default()
            },
        }
    }

    /// Writes `value` to the variable `name`.
    pub fn write(&mut self, name: &String, value: Data)
        requires
            old(self).wf(),
            !(value@ is Var),
        ensures
            final(self).wf(),
            final(self)@ == old(self)@.insert(name@, value@),
    {
        self.variables.insert(name.clone(), value);
        assert(self@ =~= old(self)@.insert(name@, value@));
    }
}

} // verus!
