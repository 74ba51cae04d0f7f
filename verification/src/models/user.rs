//! The `User` entity.  Users are identified by name alone and are created
//! outside this system; the library only reads them.

use vstd::prelude::*;

verus! {

/// A user node.  The name is the unique lookup key; there is no surrogate id.
#[derive(Debug)]
pub struct User {
    pub name: String,
}

impl View for User {
    type V = Seq<char>;

    open spec fn view(&self) -> Seq<char> {
        self.name@
    }
}

impl DeepView for User {
    type V = Seq<char>;

    open spec fn deep_view(&self) -> Seq<char> {
        self.view()
    }
}

impl Clone for User {
    fn clone(&self) -> (res: Self)
        ensures
            res@ == self@,
    {
        User { name: self.name.clone() }
    }
}

} // verus!
