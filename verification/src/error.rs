//! What went wrong, told to the person who runs the supervisor.

use vstd::prelude::*;

use crate::text::{copy_texts, join, joined, texts};

verus! {

/// Why something could not be done: a message, and below it what led to it.
#[derive(Debug)]
pub struct Error {
    chain: Vec<String>,
}

impl View for Error {
    type V = Seq<Seq<char>>;

    /// The messages, from the outermost to the cause.
    closed spec fn view(&self) -> Seq<Seq<char>> {
        texts(self.chain@)
    }
}

impl Error {
    #[verifier::type_invariant]
    spec fn has_a_message(self) -> bool {
        self.chain@.len() > 0
    }

    /// An error that `message` tells in full.
    pub fn new(message: String) -> (r: Error)
        ensures
            r@ == seq![message@],
    {
        let mut chain: Vec<String> = Vec::new();
        chain.push(message);
        let r = Error { chain };
        assert(r@ == seq![message@]);
        r
    }

    /// An error that a fixed message tells in full.
    pub fn from_text(message: &str) -> (r: Error)
        ensures
            r@ == seq![message@],
    {
        Error::new(message.to_owned())
    }

    /// This error as the cause of what `message` says.
    pub fn context(self, message: String) -> (r: Error)
        ensures
            r@ == seq![message@] + self@,
    {
        let mut chain: Vec<String> = Vec::new();
        chain.push(message);
        let mut i: usize = 0;
        while i < self.chain.len()
            invariant
                i <= self.chain@.len(),
                chain@.len() == i + 1,
                texts(chain@) == seq![message@] + texts(self.chain@).take(i as int),
            decreases self.chain.len() - i,
        {
            let ghost before = chain@;
            chain.push(self.chain[i].clone());
            assert(texts(chain@) == texts(before).push(self.chain@[i as int]@));
            i += 1;
        }
        let r = Error { chain };
        assert(r@ == seq![message@] + self@);
        r
    }

    /// The outermost message.
    pub fn message(&self) -> (r: &str)
        ensures
            self@.len() > 0,
            r@ == self@[0],
    {
        proof {
            use_type_invariant(self);
        }
        self.chain[0].as_str()
    }

    /// Every message, from the outermost to the cause.
    pub fn describe(&self) -> (r: String)
        ensures
            r@ == joined(self@, ": "@),
    {
        join(&self.chain, ": ")
    }
}

impl Clone for Error {
    fn clone(&self) -> (r: Error)
        ensures
            r@ == self@,
    {
        proof {
            use_type_invariant(self);
        }
        let chain = copy_texts(&self.chain);
        assert(texts(chain@).len() == texts(self.chain@).len());
        Error { chain }
    }
}

/// Whether something failed with `message` and nothing below it.
pub open spec fn refused<T>(r: Result<T, Error>, message: Seq<char>) -> bool {
    r matches Err(error) && error@ == seq![message]
}

/// A failure that `message` tells in full.
pub fn refuse<T>(message: String) -> (r: Result<T, Error>)
    ensures
        refused(r, message@),
{
    Err(Error::new(message))
}

/// Something is refused with a message exactly where it failed with that message and nothing below
/// it.
pub proof fn law_refusal_tells_its_message<T>(r: Result<T, Error>, message: Seq<char>)
    ensures
        refused(r, message) <==> r is Err && r->Err_0@.len() == 1 && r->Err_0@[0] == message,
{
    if r is Err && r->Err_0@.len() == 1 && r->Err_0@[0] == message {
        assert(r->Err_0@ =~= seq![message]);
    }
}

} // verus!
