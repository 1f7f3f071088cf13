use vstd::prelude::*;

verus! {

pub struct Foo;

} // verus!
