use vstd::prelude::*;
use super::b;

verus! {

pub struct Bar(pub b::Foo);

} // verus!
