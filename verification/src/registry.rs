//! The key registry: the set of credentials currently authorized to request
//! a token. Membership is the only judgment it makes.

use vstd::prelude::*;
use crate::bytes::bytes_eq;

verus! {

/// Credentials authorized for issuance, in registration order.
pub struct KeyRegistry {
    keys: Vec<Vec<u8>>,
}

impl View for KeyRegistry {
    type V = Seq<Seq<u8>>;

    closed spec fn view(&self) -> Seq<Seq<u8>> {
        self.keys@.map_values(|k: Vec<u8>| k@)
    }
}

impl KeyRegistry {
    /// An empty registry: nothing is authorized.
    pub fn new() -> (r: KeyRegistry)
        ensures
            r@.len() == 0,
    {
        KeyRegistry { keys: Vec::new() }
    }

    /// Provision one credential; everything already present stays.
    pub fn register(&mut self, key: Vec<u8>)
        ensures
            final(self)@ == old(self)@.push(key@),
    {
        let ghost kv = key@;
        self.keys.push(key);
        proof {
            assert(self@ =~= old(self)@.push(kv));
        }
    }

    /// True iff `cred` is a member of the authorized set.
    pub fn is_authorized(&self, cred: &Vec<u8>) -> (r: bool)
        ensures
            r == self@.contains(cred@),
    {
        let n = self.keys.len();
        let mut i: usize = 0;
        while i < n
            invariant
                i <= n == self.keys@.len(),
                forall|k: int| 0 <= k < i ==> self@[k] != cred@,
            decreases n - i,
        {
            if bytes_eq(&self.keys[i], cred) {
                assert(self@[i as int] == cred@);
                return true;
            }
            assert(self@[i as int] == self.keys@[i as int]@);
            i += 1;
        }
        assert(forall|k: int| 0 <= k < self@.len() ==> self@[k] != cred@);
        false
    }
}

} // verus!
