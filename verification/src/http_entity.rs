//! The plain data that a successful parse produces.

use vstd::prelude::*;
use vstd::string::StringExecFns;

verus! {

/// The request methods that the parser tells apart. Any method name other
/// than `GET` and `POST` is recorded as `BAD`.
#[derive(Debug, Clone, Copy, PartialEq, Eq, Structural)]
pub enum HttpMethod {
    GET,
    POST,
    BAD,
}

/// The protocol versions that the parser accepts.
#[derive(Debug, Clone, Copy, PartialEq, Eq, Structural)]
pub enum HttpVsn {
    HTTP1_1,
}

impl View for HttpMethod {
    type V = HttpMethod;

    open spec fn view(&self) -> HttpMethod {
        *self
    }
}

impl View for HttpVsn {
    type V = HttpVsn;

    open spec fn view(&self) -> HttpVsn {
        *self
    }
}

/// The fields of a list of header fields, by name: a field that comes
/// later in the list replaces an earlier one of the same name.
pub open spec fn fields_of(entries: Seq<(String, String)>) -> Map<Seq<char>, Seq<char>>
    decreases entries.len(),
{
    if entries.len() == 0 {
        Map::empty()
    } else {
        fields_of(entries.drop_last()).insert(entries.last().0@, entries.last().1@)
    }
}

/// Whether no name occurs twice in a list of header fields.
pub open spec fn distinct_names(entries: Seq<(String, String)>) -> bool {
    forall|i: int, j: int|
        0 <= i < j < entries.len() ==> (#[trigger] entries[i]).0@ != (#[trigger] entries[j]).0@
}

/// In a list where no name occurs twice, every entry is a field of the
/// list, every field of the list is an entry, and there are as many fields
/// as entries.
pub proof fn lemma_fields_of_distinct(entries: Seq<(String, String)>)
    requires
        distinct_names(entries),
    ensures
        fields_of(entries).dom().finite(),
        fields_of(entries).len() == entries.len(),
        forall|i: int|
            0 <= i < entries.len() ==> fields_of(entries).contains_key(
                (#[trigger] entries[i]).0@,
            ) && fields_of(entries)[entries[i].0@] == entries[i].1@,
        forall|name: Seq<char>| #[trigger]
            fields_of(entries).contains_key(name) ==> exists|i: int|
                0 <= i < entries.len() && (#[trigger] entries[i]).0@ == name,
    decreases entries.len(),
{
    if entries.len() > 0 {
        let front = entries.drop_last();
        let last = entries.last();
        assert(distinct_names(front)) by {
            assert forall|i: int, j: int| 0 <= i < j < front.len() implies (#[trigger] front[i]).0@
                != (#[trigger] front[j]).0@ by {
                assert(front[i] == entries[i] && front[j] == entries[j]);
            }
        }
        lemma_fields_of_distinct(front);
        assert(!fields_of(front).contains_key(last.0@)) by {
            if fields_of(front).contains_key(last.0@) {
                let i = choose|i: int| 0 <= i < front.len() && (#[trigger] front[i]).0@ == last.0@;
                assert(front[i] == entries[i]);
                assert(entries[entries.len() - 1] == last);
            }
        }
        assert forall|i: int| 0 <= i < entries.len() implies fields_of(entries).contains_key(
            (#[trigger] entries[i]).0@,
        ) && fields_of(entries)[entries[i].0@] == entries[i].1@ by {
            if i < front.len() {
                assert(front[i] == entries[i]);
            }
        }
        assert forall|name: Seq<char>| #[trigger]
            fields_of(entries).contains_key(name) implies exists|i: int|
            0 <= i < entries.len() && (#[trigger] entries[i]).0@ == name by {
            if name == last.0@ {
                assert(entries[entries.len() - 1].0@ == name);
            } else {
                let i = choose|i: int| 0 <= i < front.len() && (#[trigger] front[i]).0@ == name;
                assert(front[i] == entries[i]);
            }
        }
    }
}

/// The header fields of a request, by name. Names are unique and
/// case-sensitive; the order of the fields means nothing.
#[derive(Debug)]
pub struct Headers {
    entries: Vec<(String, String)>,
}

impl View for Headers {
    type V = Map<Seq<char>, Seq<char>>;

    closed spec fn view(&self) -> Map<Seq<char>, Seq<char>> {
        fields_of(self.entries@)
    }
}

impl Headers {
    /// What every value of the type keeps: no name occurs twice.
    #[verifier::type_invariant]
    spec fn names_are_distinct(self) -> bool {
        distinct_names(self.entries@)
    }

    /// No fields.
    pub fn new() -> (headers: Self)
        ensures
            headers@ == Map::<Seq<char>, Seq<char>>::empty(),
    {
        Headers { entries: Vec::new() }
    }

    /// The place of the field of this name among the entries.
    fn position(&self, name: &String) -> (at: Option<usize>)
        ensures
            match at {
                Some(i) => i < self.entries@.len() && self.entries@[i as int].0@ == name@,
                None => forall|i: int|
                    0 <= i < self.entries@.len() ==> (#[trigger] self.entries@[i]).0@ != name@,
            },
    {
        let mut i: usize = 0;
        while i < self.entries.len()
            invariant
                i <= self.entries@.len(),
                forall|j: int| 0 <= j < i ==> (#[trigger] self.entries@[j]).0@ != name@,
            decreases self.entries@.len() - i,
        {
            if self.entries[i].0 == *name {
                return Some(i);
            }
            i = i + 1;
        }
        None
    }

    /// Sets the field `name` to `value` and hands out the value that the
    /// name had before, if it had one.
    pub fn insert(&mut self, name: String, value: String) -> (before: Option<String>)
        ensures
            final(self)@ == old(self)@.insert(name@, value@),
            old(self)@.contains_key(name@) ==> before is Some && before->0@ == old(self)@[name@],
            !old(self)@.contains_key(name@) ==> before is None,
    {
        proof {
            use_type_invariant(&*self);
            lemma_fields_of_distinct(self.entries@);
        }
        let ghost was = self.entries@;
        let found = self.position(&name);
        let mut entries: Vec<(String, String)> = Vec::new();
        std::mem::swap(&mut entries, &mut self.entries);
        let before = match found {
            Some(i) => {
                let before = entries[i].1.clone();
                entries.set(i, (name, value));
                proof {
                    let now = entries@;
                    let wanted = fields_of(was).insert(name@, value@);
                    assert forall|a: int, b: int| 0 <= a < b < now.len() implies (#[trigger] now[a]).0@
                        != (#[trigger] now[b]).0@ by {
                        assert(now[a].0@ == was[a].0@ && now[b].0@ == was[b].0@);
                    }
                    lemma_fields_of_distinct(now);
                    assert forall|key: Seq<char>| #[trigger]
                        fields_of(now).contains_key(key) implies wanted.contains_key(key) by {
                        let a = choose|a: int| 0 <= a < now.len() && (#[trigger] now[a]).0@ == key;
                        assert(was[a].0@ == key);
                    }
                    assert forall|key: Seq<char>| #[trigger]
                        wanted.contains_key(key) implies fields_of(now).contains_key(key)
                        && fields_of(now)[key] == wanted[key] by {
                        if key == name@ {
                            assert(now[i as int].0@ == key);
                        } else {
                            let a = choose|a: int|
                                0 <= a < was.len() && (#[trigger] was[a]).0@ == key;
                            assert(now[a] == was[a]);
                        }
                    }
                    assert(fields_of(now) =~= wanted);
                }
                Some(before)
            },
            None => {
                entries.push((name, value));
                proof {
                    let now = entries@;
                    assert(now.drop_last() =~= was);
                    assert forall|a: int, b: int| 0 <= a < b < now.len() implies (#[trigger] now[a]).0@
                        != (#[trigger] now[b]).0@ by {
                        assert(now[a] == was[a]);
                        if b < was.len() {
                            assert(now[b] == was[b]);
                        }
                    }
                }
                None
            },
        };
        self.entries = entries;
        before
    }

    /// The value of the field `name`, if there is such a field.
    pub fn get(&self, name: &str) -> (value: Option<&String>)
        ensures
            self@.contains_key(name@) ==> value is Some && value->0@ == self@[name@],
            !self@.contains_key(name@) ==> value is None,
    {
        proof {
            use_type_invariant(self);
            lemma_fields_of_distinct(self.entries@);
        }
        let key = String::from_str(name);
        match self.position(&key) {
            Some(i) => Some(&self.entries[i].1),
            None => None,
        }
    }

    /// Whether there is a field `name`.
    pub fn contains_key(&self, name: &str) -> (r: bool)
        ensures
            r == self@.contains_key(name@),
    {
        self.get(name).is_some()
    }

    /// The number of fields.
    pub fn len(&self) -> (n: usize)
        ensures
            self@.dom().finite(),
            n == self@.len(),
    {
        proof {
            use_type_invariant(self);
            lemma_fields_of_distinct(self.entries@);
        }
        self.entries.len()
    }

    /// Whether there is no field.
    pub fn is_empty(&self) -> (r: bool)
        ensures
            r == (self@ == Map::<Seq<char>, Seq<char>>::empty()),
    {
        proof {
            use_type_invariant(self);
            lemma_fields_of_distinct(self.entries@);
            if self.entries@.len() > 0 {
                assert(self@.contains_key(self.entries@[0].0@));
            }
        }
        self.entries.len() == 0
    }

    /// The fields as a list of names with their values, each name once.
    pub fn entries(&self) -> (list: &Vec<(String, String)>)
        ensures
            distinct_names(list@),
            fields_of(list@) == self@,
    {
        proof {
            use_type_invariant(self);
        }
        &self.entries
    }
}

/// The head of one request: request line and header fields.
#[derive(Debug)]
pub struct HttpEntity {
    pub http_version: HttpVsn,
    pub method: HttpMethod,
    pub path: String,
    pub headers: Headers,
}

/// The mathematical value of an [`HttpEntity`].
pub struct HttpEntityView {
    pub http_version: HttpVsn,
    pub method: HttpMethod,
    pub path: Seq<char>,
    pub headers: Map<Seq<char>, Seq<char>>,
}

impl View for HttpEntity {
    type V = HttpEntityView;

    open spec fn view(&self) -> HttpEntityView {
        HttpEntityView {
            http_version: self.http_version,
            method: self.method,
            path: self.path@,
            headers: self.headers@,
        }
    }
}

/// The method that a method name stands for.
pub open spec fn method_of(name: Seq<char>) -> HttpMethod {
    if name == seq!['G', 'E', 'T'] {
        HttpMethod::GET
    } else if name == seq!['P', 'O', 'S', 'T'] {
        HttpMethod::POST
    } else {
        HttpMethod::BAD
    }
}

/// The bytes that write a method. `BAD` stands for no method and has no
/// bytes.
pub open spec fn method_name(m: HttpMethod) -> Seq<u8> {
    match m {
        HttpMethod::GET => seq![71u8, 69u8, 84u8],
        HttpMethod::POST => seq![80u8, 79u8, 83u8, 84u8],
        HttpMethod::BAD => Seq::empty(),
    }
}

impl HttpMethod {
    /// Resolves a method name, case-sensitively.
    pub fn from_name(name: &String) -> (m: HttpMethod)
        ensures
            m == method_of(name@),
    {
        proof {
            reveal_strlit("GET");
            reveal_strlit("POST");
            assert("GET"@ =~= seq!['G', 'E', 'T']);
            assert("POST"@ =~= seq!['P', 'O', 'S', 'T']);
        }
        if *name == String::from_str("GET") {
            HttpMethod::GET
        } else if *name == String::from_str("POST") {
            HttpMethod::POST
        } else {
            HttpMethod::BAD
        }
    }
}

} // verus!
