use vstd::prelude::*;

verus! {

/// The method that a called contract exposes to receive a step's value.
pub open spec fn call_method_bytes() -> Seq<u8> {
    seq![109u8, 97u8, 108u8, 108u8, 111u8, 99u8, 95u8, 99u8, 97u8, 108u8, 108u8]
}

/// The method that a called contract exposes to report what a step returned.
pub open spec fn resolver_method_bytes() -> Seq<u8> {
    seq![114u8, 101u8, 115u8, 111u8, 108u8, 118u8, 101u8, 114u8]
}

/// The name of the method invoked on a called contract: `malloc_call`.
pub fn call_method_name() -> (r: Vec<u8>)
    ensures
        r@ == call_method_bytes(),
{
    let r = vec![109u8, 97u8, 108u8, 108u8, 111u8, 99u8, 95u8, 99u8, 97u8, 108u8, 108u8];
    assert(r@ =~= call_method_bytes());
    r
}

/// The name of the method a called contract uses to hand back its results: `resolver`.
pub fn resolver_method_name() -> (r: Vec<u8>)
    ensures
        r@ == resolver_method_bytes(),
{
    let r = vec![114u8, 101u8, 115u8, 111u8, 108u8, 118u8, 101u8, 114u8];
    assert(r@ =~= resolver_method_bytes());
    r
}

} // verus!
