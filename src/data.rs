//! A key/value data model for deserializing the package's other text formats:
//! each key holds a single value or a list of values.
use vstd::prelude::*;
use std::marker::PhantomData;

verus! {

/// Why data could not be deserialized.
#[derive(Debug, Clone)]
pub enum Error {
    /// A message from the deserialization framework.
    Custom(String),
    /// A message passed through from the parser.
    ParserError(String),
    /// A value was asked of data that holds a list.
    InvalidState,
}

/// Raw parsed data: one value, or a list of values.
#[derive(Debug, Clone)]
pub enum Data {
    Value(String),
    List(Vec<String>),
}

pub enum DataView {
    Value(Seq<char>),
    List(Seq<Seq<char>>),
}

impl View for Data {
    type V = DataView;

    open spec fn view(&self) -> DataView {
        match self {
            Data::Value(v) => DataView::Value(v@),
            Data::List(l) => DataView::List(l@.map_values(|s: String| s@)),
        }
    }
}

impl Data {
    /// The single value, or `InvalidState` where the data is a list.
    pub fn value_or_error(&self) -> (r: Result<&str, Error>)
        ensures
            match self@ {
                DataView::Value(v) => r is Ok && r->Ok_0@ == v,
                DataView::List(_) => r is Err && r->Err_0 is InvalidState,
            },
    {
        match self {
            Data::Value(value) => Ok(value.as_str()),
            Data::List(_) => Err(Error::InvalidState),
        }
    }
}

/// Deserializes one piece of data.
pub struct DataDeserializer<E> {
    pub data: Data,
    pub marker: PhantomData<E>,
}

impl<E> DataDeserializer<E> {
    pub fn new(data: Data) -> (r: Self)
        ensures
            r.data@ == data@,
    {
        DataDeserializer { data, marker: PhantomData }
    }
}

/// Whether no key occurs twice.
pub open spec fn keys_unique(v: Seq<(Seq<char>, DataView)>) -> bool {
    forall|i: int, j: int| 0 <= i < j < v.len() ==> v[i].0 != v[j].0
}

proof fn lemma_sample_keys_unique()
    ensures
        keys_unique(sample_input()),
{
    reveal_strlit("i32");
    reveal_strlit("i64");
    reveal_strlit("key");
    reveal_strlit("list");
    reveal_strlit("number_list");
    reveal_strlit("single_key_list");
    reveal_strlit("u32");
    reveal_strlit("u64");
    let v = sample_input();
    assert forall|i: int, j: int| 0 <= i < j < v.len() implies v[i].0 != v[j].0 by {
        if v[i].0.len() == v[j].0.len() {
            assert(v[i].0[0] != v[j].0[0] || v[i].0[1] != v[j].0[1] || v[i].0[2] != v[j].0[2]);
        }
    }
}

/// Holds parsed input as keys, each with its data, in order of key; no key
/// occurs twice.
pub struct Deserializer {
    pub input: Vec<(String, Data)>,
}

pub open spec fn pair_view(p: (String, Data)) -> (Seq<char>, DataView) {
    (p.0@, p.1@)
}

/// The sample input that `Deserializer::from_str` holds.
pub open spec fn sample_input() -> Seq<(Seq<char>, DataView)> {
    seq![
        ("i32"@, DataView::Value("-10"@)),
        ("i64"@, DataView::Value("-1"@)),
        ("key"@, DataView::Value("value"@)),
        ("list"@, DataView::List(seq!["1"@, "2"@])),
        ("number_list"@, DataView::List(seq!["1"@, "2"@])),
        ("single_key_list"@, DataView::Value("yo"@)),
        ("u32"@, DataView::Value("10"@)),
        ("u64"@, DataView::Value("1"@)),
    ]
}

fn text(s: &str) -> (r: String)
    ensures
        r@ == s@,
{
    s.to_owned()
}

fn list_of_two(a: &str, b: &str) -> (r: Data)
    ensures
        r@ == DataView::List(seq![a@, b@]),
{
    let mut l: Vec<String> = Vec::new();
    l.push(text(a));
    l.push(text(b));
    let r = Data::List(l);
    proof {
        assert(l@.map_values(|s: String| s@) =~= seq![a@, b@]);
    }
    r
}

impl Deserializer {
    /// A deserializer over a fixed sample of keys; the text is not read yet.
    pub fn from_str(_input: &str) -> (r: Self)
        ensures
            r.input@.map_values(|p: (String, Data)| pair_view(p)) == sample_input(),
            keys_unique(r.input@.map_values(|p: (String, Data)| pair_view(p))),
    {
        let mut input: Vec<(String, Data)> = Vec::new();
        input.push((text("i32"), Data::Value(text("-10"))));
        input.push((text("i64"), Data::Value(text("-1"))));
        input.push((text("key"), Data::Value(text("value"))));
        input.push((text("list"), list_of_two("1", "2")));
        input.push((text("number_list"), list_of_two("1", "2")));
        input.push((text("single_key_list"), Data::Value(text("yo"))));
        input.push((text("u32"), Data::Value(text("10"))));
        input.push((text("u64"), Data::Value(text("1"))));
        proof {
            assert(input@.map_values(|p: (String, Data)| pair_view(p)) =~= sample_input());
            lemma_sample_keys_unique();
        }
        Deserializer { input }
    }
}

} // verus!
