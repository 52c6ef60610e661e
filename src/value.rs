use vstd::prelude::*;

use crate::text::text_eq;

verus! {

/// A JSON-like value handed to template filters; a number is kept as its
/// decimal text.
pub enum JsonValue {
    Null,
    Bool(bool),
    Number(String),
    Str(String),
    Array(Vec<JsonValue>),
    Object(Vec<(String, JsonValue)>),
}

/// A JSON-like value as plain values.
pub enum JsonView {
    Null,
    Bool(bool),
    Number(Seq<char>),
    Str(Seq<char>),
    Array(Seq<JsonView>),
    Object(Seq<(Seq<char>, JsonView)>),
}

pub open spec fn json_view(v: JsonValue) -> JsonView
    decreases v,
{
    match v {
        JsonValue::Null => JsonView::Null,
        JsonValue::Bool(b) => JsonView::Bool(b),
        JsonValue::Number(n) => JsonView::Number(n@),
        JsonValue::Str(s) => JsonView::Str(s@),
        JsonValue::Array(a) => JsonView::Array(json_seq_view(a@)),
        JsonValue::Object(o) => JsonView::Object(json_entries_view(o@)),
    }
}

pub open spec fn json_seq_view(s: Seq<JsonValue>) -> Seq<JsonView>
    decreases s,
{
    if s.len() == 0 {
        Seq::empty()
    } else {
        json_seq_view(s.drop_last()).push(json_view(s.last()))
    }
}

pub open spec fn json_entries_view(s: Seq<(String, JsonValue)>) -> Seq<(Seq<char>, JsonView)>
    decreases s,
{
    if s.len() == 0 {
        Seq::empty()
    } else {
        json_entries_view(s.drop_last()).push((s.last().0@, json_view(s.last().1)))
    }
}

impl View for JsonValue {
    type V = JsonView;

    open spec fn view(&self) -> JsonView {
        json_view(*self)
    }
}

pub proof fn lemma_json_seq_view(s: Seq<JsonValue>)
    ensures
        json_seq_view(s).len() == s.len(),
        forall|i: int| 0 <= i < s.len() ==> #[trigger] json_seq_view(s)[i] == json_view(s[i]),
    decreases s.len(),
{
    if s.len() > 0 {
        lemma_json_seq_view(s.drop_last());
        assert forall|i: int| 0 <= i < s.len() implies #[trigger] json_seq_view(s)[i] == json_view(s[i]) by {
            if i < s.len() - 1 {
                assert(s.drop_last()[i] == s[i]);
            }
        }
    }
}

pub proof fn lemma_json_entries_view(s: Seq<(String, JsonValue)>)
    ensures
        json_entries_view(s).len() == s.len(),
        forall|i: int| 0 <= i < s.len() ==> #[trigger] json_entries_view(s)[i] == (s[i].0@, json_view(s[i].1)),
    decreases s.len(),
{
    if s.len() > 0 {
        lemma_json_entries_view(s.drop_last());
        assert forall|i: int| 0 <= i < s.len() implies #[trigger] json_entries_view(s)[i] == (s[i].0@, json_view(s[i].1)) by {
            if i < s.len() - 1 {
                assert(s.drop_last()[i] == s[i]);
            }
        }
    }
}

impl JsonValue {
    /// An equal copy.
    pub fn duplicate(&self) -> (r: JsonValue)
        ensures
            r@ == self@,
        decreases self,
    {
        match self {
            JsonValue::Null => JsonValue::Null,
            JsonValue::Bool(b) => JsonValue::Bool(*b),
            JsonValue::Number(n) => JsonValue::Number(n.clone()),
            JsonValue::Str(s) => JsonValue::Str(s.clone()),
            JsonValue::Array(a) => {
                let mut r: Vec<JsonValue> = Vec::new();
                let mut i: usize = 0;
                while i < a.len()
                    invariant
                        i <= a@.len(),
                        *self == JsonValue::Array(*a),
                        json_seq_view(r@) == json_seq_view(a@.subrange(0, i as int)),
                    decreases a@.len() - i,
                {
                    proof {
                        assert(decreases_to!(*self => self->Array_0));
                        vstd::std_specs::vec::axiom_vec_index_decreases(*a, i as int);
                        assert(a@.subrange(0, i + 1).drop_last() =~= a@.subrange(0, i as int));
                    }
                    let c = a[i].duplicate();
                    let ghost pre = r@;
                    r.push(c);
                    proof {
                        assert(r@.drop_last() =~= pre);
                    }
                    i = i + 1;
                }
                proof {
                    assert(a@.subrange(0, a@.len() as int) =~= a@);
                }
                JsonValue::Array(r)
            },
            JsonValue::Object(o) => {
                let mut r: Vec<(String, JsonValue)> = Vec::new();
                let mut i: usize = 0;
                while i < o.len()
                    invariant
                        i <= o@.len(),
                        *self == JsonValue::Object(*o),
                        json_entries_view(r@) == json_entries_view(o@.subrange(0, i as int)),
                    decreases o@.len() - i,
                {
                    proof {
                        assert(decreases_to!(*self => self->Object_0));
                        vstd::std_specs::vec::axiom_vec_index_decreases(*o, i as int);
                        assert(decreases_to!(o@[i as int] => o@[i as int].1));
                        assert(o@.subrange(0, i + 1).drop_last() =~= o@.subrange(0, i as int));
                    }
                    let k = o[i].0.clone();
                    let c = o[i].1.duplicate();
                    let ghost pre = r@;
                    r.push((k, c));
                    proof {
                        assert(r@.drop_last() =~= pre);
                    }
                    i = i + 1;
                }
                proof {
                    assert(o@.subrange(0, o@.len() as int) =~= o@);
                }
                JsonValue::Object(r)
            },
        }
    }

    /// Whether the two values are equal.
    pub fn equals(&self, other: &JsonValue) -> (r: bool)
        ensures
            r == (self@ == other@),
        decreases self,
    {
        match (self, other) {
            (JsonValue::Null, JsonValue::Null) => true,
            (JsonValue::Bool(a), JsonValue::Bool(b)) => *a == *b,
            (JsonValue::Number(a), JsonValue::Number(b)) => text_eq(a.as_str(), b.as_str()),
            (JsonValue::Str(a), JsonValue::Str(b)) => text_eq(a.as_str(), b.as_str()),
            (JsonValue::Array(a), JsonValue::Array(b)) => {
                proof {
                    lemma_json_seq_view(a@);
                    lemma_json_seq_view(b@);
                }
                if a.len() != b.len() {
                    proof {
                        lemma_json_seq_view(a@);
                        lemma_json_seq_view(b@);
                    }
                    return false;
                }
                let mut i: usize = 0;
                while i < a.len()
                    invariant
                        i <= a@.len(),
                        a@.len() == b@.len(),
                        *self == JsonValue::Array(*a),
                        *other == JsonValue::Array(*b),
                        forall|j: int| 0 <= j < i ==> json_view(a@[j]) == json_view(b@[j]),
                    decreases a@.len() - i,
                {
                    proof {
                        assert(decreases_to!(*self => self->Array_0));
                        vstd::std_specs::vec::axiom_vec_index_decreases(*a, i as int);
                    }
                    if !a[i].equals(&b[i]) {
                        proof {
                            lemma_json_seq_view(a@);
                            lemma_json_seq_view(b@);
                            assert(json_seq_view(a@)[i as int] != json_seq_view(b@)[i as int]);
                        }
                        return false;
                    }
                    i = i + 1;
                }
                proof {
                    lemma_json_seq_view(a@);
                    lemma_json_seq_view(b@);
                    assert(json_seq_view(a@) =~= json_seq_view(b@));
                    assert(self@ == other@);
                }
                true
            },
            (JsonValue::Object(a), JsonValue::Object(b)) => {
                proof {
                    lemma_json_entries_view(a@);
                    lemma_json_entries_view(b@);
                }
                if a.len() != b.len() {
                    proof {
                        lemma_json_entries_view(a@);
                        lemma_json_entries_view(b@);
                    }
                    return false;
                }
                let mut i: usize = 0;
                while i < a.len()
                    invariant
                        i <= a@.len(),
                        a@.len() == b@.len(),
                        *self == JsonValue::Object(*a),
                        *other == JsonValue::Object(*b),
                        forall|j: int| 0 <= j < i ==> a@[j].0@ == b@[j].0@ && json_view(a@[j].1) == json_view(b@[j].1),
                    decreases a@.len() - i,
                {
                    proof {
                        assert(decreases_to!(*self => self->Object_0));
                        vstd::std_specs::vec::axiom_vec_index_decreases(*a, i as int);
                        assert(decreases_to!(a@[i as int] => a@[i as int].1));
                    }
                    if !text_eq(a[i].0.as_str(), b[i].0.as_str()) || !a[i].1.equals(&b[i].1) {
                        proof {
                            lemma_json_entries_view(a@);
                            lemma_json_entries_view(b@);
                            assert(json_entries_view(a@)[i as int] != json_entries_view(b@)[i as int]);
                        }
                        return false;
                    }
                    i = i + 1;
                }
                proof {
                    lemma_json_entries_view(a@);
                    lemma_json_entries_view(b@);
                    assert(json_entries_view(a@) =~= json_entries_view(b@));
                    assert(self@ == other@);
                }
                true
            },
            _ => {
                proof {
                    assert(self@ != other@);
                }
                false
            },
        }
    }
}

} // verus!
