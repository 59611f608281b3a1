use vstd::prelude::*;

verus! {

/// Names one block of a database file: the file's name and the block's
/// position in it.
#[derive(Debug)]
pub struct BlockId {
    filename: String,
    number: u64,
}

impl View for BlockId {
    type V = (Seq<char>, u64);

    closed spec fn view(&self) -> (Seq<char>, u64) {
        (self.filename@, self.number)
    }
}

impl BlockId {
    pub fn new(filename: &str, number: u64) -> (r: BlockId)
        ensures
            r@ == (filename@, number),
    {
        BlockId { filename: filename.to_owned(), number }
    }

    pub fn filename(&self) -> (r: &str)
        ensures
            r@ == self@.0,
    {
        self.filename.as_str()
    }

    pub fn number(&self) -> (r: u64)
        ensures
            r == self@.1,
    {
        self.number
    }

    /// The block just before this one in the same file.
    pub fn previous(&self) -> (r: BlockId)
        requires
            self@.1 > 0,
        ensures
            r@ == (self@.0, (self@.1 - 1) as u64),
    {
        BlockId { filename: self.filename.clone(), number: self.number - 1 }
    }
}

impl Clone for BlockId {
    fn clone(&self) -> (r: BlockId)
        ensures
            r@ == self@,
    {
        BlockId { filename: self.filename.clone(), number: self.number }
    }
}

impl PartialEq for BlockId {
    fn eq(&self, other: &BlockId) -> (r: bool) {
        self.number == other.number && self.filename == other.filename
    }
}

impl vstd::std_specs::cmp::PartialEqSpecImpl for BlockId {
    open spec fn obeys_eq_spec() -> bool {
        true
    }

    open spec fn eq_spec(&self, other: &BlockId) -> bool {
        self@ == other@
    }
}

impl Eq for BlockId {}

} // verus!
