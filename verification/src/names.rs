//! The fixed file names of the mount, as byte strings: the writable `send`
//! input, the read-only `receive` log, and the read-only `raw` wire log.

use vstd::prelude::*;

verus! {

/// The bytes of the name `send`.
pub open spec fn spec_name_send() -> Seq<u8> {
    seq![115u8, 101u8, 110u8, 100u8]
}

/// The bytes of the name `receive`.
pub open spec fn spec_name_receive() -> Seq<u8> {
    seq![114u8, 101u8, 99u8, 101u8, 105u8, 118u8, 101u8]
}

/// The bytes of the name `raw`.
pub open spec fn spec_name_raw() -> Seq<u8> {
    seq![114u8, 97u8, 119u8]
}

/// The name `send`.
pub fn name_send() -> (r: Vec<u8>)
    ensures
        r@ == spec_name_send(),
{
    let v: Vec<u8> = vec![115u8, 101u8, 110u8, 100u8];
    proof {
        assert(v@ =~= spec_name_send());
    }
    v
}

/// The name `receive`.
pub fn name_receive() -> (r: Vec<u8>)
    ensures
        r@ == spec_name_receive(),
{
    let v: Vec<u8> = vec![114u8, 101u8, 99u8, 101u8, 105u8, 118u8, 101u8];
    proof {
        assert(v@ =~= spec_name_receive());
    }
    v
}

/// The name `raw`.
pub fn name_raw() -> (r: Vec<u8>)
    ensures
        r@ == spec_name_raw(),
{
    let v: Vec<u8> = vec![114u8, 97u8, 119u8];
    proof {
        assert(v@ =~= spec_name_raw());
    }
    v
}

} // verus!
