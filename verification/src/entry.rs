//! One row of the sidebar: the text as typed and the function compiled from it.

use vstd::prelude::*;

verus! {

/// An entry in the sidebar. `F` is the compiled form that the expression parser hands back;
/// the entry only keeps it.
#[derive(Clone, Debug)]
pub struct FunctionEntry<F> {
    pub text: String,
    pub func: Option<F>,
}

/// An entry as the contracts see it.
pub struct EntryView<F> {
    pub text: Seq<char>,
    pub func: Option<F>,
}

impl<F> EntryView<F> {
    /// The entry of a fresh row: no text, no function.
    pub open spec fn empty() -> Self {
        EntryView { text: Seq::empty(), func: None }
    }

    /// An entry whose text has not been compiled.
    pub open spec fn unparsed(text: Seq<char>) -> Self {
        EntryView { text, func: None }
    }

    /// An empty text never has a function.
    pub open spec fn wf(self) -> bool {
        self.func is Some ==> self.text.len() > 0
    }
}

impl<F> View for FunctionEntry<F> {
    type V = EntryView<F>;

    open spec fn view(&self) -> EntryView<F> {
        EntryView { text: self.text@, func: self.func }
    }
}

impl<F> FunctionEntry<F> {
    /// The entry of a fresh row.
    pub fn new() -> (entry: Self)
        ensures
            entry@ == EntryView::<F>::empty(),
    {
        FunctionEntry { text: String::new(), func: None }
    }
}

/// The views of a list of entries, in order.
pub open spec fn entry_views<F>(data: Seq<FunctionEntry<F>>) -> Seq<EntryView<F>> {
    data.map_values(|e: FunctionEntry<F>| e@)
}

} // verus!
