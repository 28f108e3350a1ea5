use vstd::prelude::*;

verus! {

/// A localisable string: a key and its text.
#[derive(Debug)]
pub struct Resource {
    pub name: String,
    pub value: String,
}

/// A row of the three-way diff: a key, its new text and its text in the base.
#[derive(Debug)]
pub struct Triple {
    pub name: String,
    pub value: String,
    pub base: String,
}

/// The mathematical content of a resource: its key and its text.
pub type Row = (Seq<char>, Seq<char>);

impl View for Resource {
    type V = Row;

    open spec fn view(&self) -> Row {
        (self.name@, self.value@)
    }
}

impl View for Triple {
    type V = (Seq<char>, Seq<char>, Seq<char>);

    open spec fn view(&self) -> (Seq<char>, Seq<char>, Seq<char>) {
        (self.name@, self.value@, self.base@)
    }
}

/// The rows of a sequence of resources.
pub open spec fn rows(rs: Seq<Resource>) -> Seq<Row> {
    rs.map_values(|r: Resource| r@)
}

/// The rows of a sequence of triples.
pub open spec fn triple_rows(ts: Seq<Triple>) -> Seq<(Seq<char>, Seq<char>, Seq<char>)> {
    ts.map_values(|t: Triple| t@)
}

impl Resource {
    pub fn new(name: &str, value: &str) -> (r: Resource)
        ensures
            r@ == (name@, value@),
    {
        Resource { name: name.to_owned(), value: value.to_owned() }
    }

    /// The rendering `name=value`.
    pub fn to_string(&self) -> (s: String)
        ensures
            s@ == self.name@ + seq!['='] + self.value@,
    {
        proof {
            reveal_strlit("=");
        }
        let mut s = self.name.clone();
        s.append("=");
        s.append(self.value.as_str());
        s
    }
}

impl Clone for Resource {
    fn clone(&self) -> (r: Resource)
        ensures
            r == *self,
    {
        Resource { name: self.name.clone(), value: self.value.clone() }
    }
}

impl PartialEq for Resource {
    fn eq(&self, other: &Resource) -> (r: bool)
        ensures
            r == (self@ == other@),
    {
        self.name == other.name && self.value == other.value
    }
}

impl vstd::std_specs::cmp::PartialEqSpecImpl for Resource {
    open spec fn obeys_eq_spec() -> bool {
        true
    }

    open spec fn eq_spec(&self, other: &Resource) -> bool {
        self@ == other@
    }
}

impl Triple {
    pub fn new(name: &str, value: &str, base: &str) -> (t: Triple)
        ensures
            t@ == (name@, value@, base@),
    {
        Triple { name: name.to_owned(), value: value.to_owned(), base: base.to_owned() }
    }

    /// The rendering `name,value,base`.
    pub fn to_string(&self) -> (s: String)
        ensures
            s@ == self.name@ + seq![','] + self.value@ + seq![','] + self.base@,
    {
        proof {
            reveal_strlit(",");
        }
        let mut s = self.name.clone();
        s.append(",");
        s.append(self.value.as_str());
        s.append(",");
        s.append(self.base.as_str());
        s
    }
}

impl Clone for Triple {
    fn clone(&self) -> (r: Triple)
        ensures
            r == *self,
    {
        Triple { name: self.name.clone(), value: self.value.clone(), base: self.base.clone() }
    }
}

/// Two triples are equal when their keys and new texts are: the base is not compared.
impl PartialEq for Triple {
    fn eq(&self, other: &Triple) -> (r: bool)
        ensures
            r == (self.name@ == other.name@ && self.value@ == other.value@),
    {
        self.name == other.name && self.value == other.value
    }
}

impl vstd::std_specs::cmp::PartialEqSpecImpl for Triple {
    open spec fn obeys_eq_spec() -> bool {
        true
    }

    open spec fn eq_spec(&self, other: &Triple) -> bool {
        self.name@ == other.name@ && self.value@ == other.value@
    }
}

} // verus!
