use vstd::prelude::*;

verus! {

/// The credentials handed to the exchange sessions.
pub struct ApiKey {
    pub key: String,
    pub secret: String,
}

impl ApiKey {
    pub fn new(key: String, secret: String) -> (r: ApiKey)
        ensures
            r.key@ == key@,
            r.secret@ == secret@,
    {
        ApiKey { key, secret }
    }

    pub fn key(&self) -> (r: &str)
        ensures
            r@ == self.key@,
    {
        self.key.as_str()
    }

    pub fn secret(&self) -> (r: &str)
        ensures
            r@ == self.secret@,
    {
        self.secret.as_str()
    }
}

} // verus!
