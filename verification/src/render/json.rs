//! JSON-lines framing: each serialised event becomes one line.

use vstd::prelude::*;

verus! {

/// Frames serialised [`super::BuildEvent`]s as newline-delimited JSON (one
/// object per line), suitable for piping into `jq`.
#[derive(Debug)]
pub struct JsonRenderer {}

impl JsonRenderer {
    /// Create a new renderer.
    pub fn new() -> (r: Self) {
        JsonRenderer {}
    }

    /// The bytes to write for one serialised event: the JSON text, then a
    /// newline.
    pub fn on_event(&mut self, json: &[u8]) -> (r: Vec<u8>)
        ensures
            r@ == json@.push(10u8),
    {
        let mut r: Vec<u8> = Vec::new();
        let mut i: usize = 0;
        while i < json.len()
            invariant
                i <= json@.len(),
                r@ == json@.subrange(0, i as int),
            decreases json@.len() - i,
        {
            r.push(json[i]);
            proof {
                assert(json@.subrange(0, i + 1) =~= json@.subrange(0, i as int).push(json@[i as int]));
            }
            i = i + 1;
        }
        proof {
            assert(json@.subrange(0, json@.len() as int) =~= json@);
        }
        r.push(10u8);
        r
    }
}

} // verus!
