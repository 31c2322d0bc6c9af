use vstd::prelude::*;

verus! {

/// A failure met while handling one file, with the path of that file.
pub struct PhotoDBError {
    details: String,
    path: String,
}

impl PhotoDBError {
    /// What went wrong.
    pub closed spec fn spec_details(&self) -> Seq<char> {
        self.details@
    }

    /// The file it went wrong with.
    pub closed spec fn spec_path(&self) -> Seq<char> {
        self.path@
    }

    pub fn new(msg: &str, path: &String) -> (r: PhotoDBError)
        ensures
            r.spec_details() == msg@,
            r.spec_path() == path@,
    {
        PhotoDBError { details: String::from_str(msg), path: path.clone() }
    }

    /// What went wrong.
    pub fn description(&self) -> (r: &str)
        ensures
            r@ == self.spec_details(),
    {
        self.details.as_str()
    }

    /// The file it went wrong with.
    pub fn path(&self) -> (r: &str)
        ensures
            r@ == self.spec_path(),
    {
        self.path.as_str()
    }

    /// The error as one line: `Error: <path> -> <details>`.
    pub fn to_string(&self) -> (r: String)
        ensures
            r@ == "Error: "@ + self.spec_path() + " -> "@ + self.spec_details(),
    {
        let mut r = String::from_str("Error: ");
        r.append(self.path.as_str());
        r.append(" -> ");
        r.append(self.details.as_str());
        r
    }
}

} // verus!
