use vstd::prelude::*;

verus! {

/// Mathematical model of a schema-free document value: the tree that stage
/// specifications and result documents are made of. Object fields are an
/// ordered sequence of key/value pairs, since field order is significant.
#[verifier::ext_equal]
pub enum ValS {
    Null,
    Bool(bool),
    /// A number, kept as the text of its decimal token.
    Num(Seq<char>),
    Str(Seq<char>),
    Arr(Seq<ValS>),
    Obj(Seq<(Seq<char>, ValS)>),
}

/// Executable schema-free document value. `Num` holds the number's textual
/// token exactly as it stood in the source, so no precision is lost.
pub enum Val {
    Null,
    Bool(bool),
    Num(String),
    Str(String),
    Arr(Vec<Val>),
    Obj(Vec<(String, Val)>),
}

impl Val {
    pub open spec fn deep_view(&self) -> ValS
        decreases *self,
    {
        match self {
            Val::Null => ValS::Null,
            Val::Bool(b) => ValS::Bool(*b),
            Val::Num(s) => ValS::Num(s@),
            Val::Str(s) => ValS::Str(s@),
            Val::Arr(items) => {
                proof {
                    assert(decreases_to!(*self => *items));
                    assert(decreases_to!(*items => items@));
                }
                ValS::Arr(view_items(items@))
            },
            Val::Obj(fields) => {
                proof {
                    assert(decreases_to!(*self => *fields));
                    assert(decreases_to!(*fields => fields@));
                }
                ValS::Obj(view_fields(fields@))
            },
        }
    }
}

pub open spec fn view_items(s: Seq<Val>) -> Seq<ValS>
    decreases s,
{
    if s.len() == 0 {
        Seq::empty()
    } else {
        proof {
            assert(decreases_to!(s => s[0]));
            assert(decreases_to!(s => s.subrange(1, s.len() as int)));
        }
        seq![s[0].deep_view()] + view_items(s.subrange(1, s.len() as int))
    }
}

pub open spec fn view_fields(s: Seq<(String, Val)>) -> Seq<(Seq<char>, ValS)>
    decreases s,
{
    if s.len() == 0 {
        Seq::empty()
    } else {
        proof {
            assert(decreases_to!(s => s[0]));
            assert(decreases_to!(s[0] => s[0].1));
            assert(decreases_to!(s => s.subrange(1, s.len() as int)));
        }
        seq![(s[0].0@, s[0].1.deep_view())] + view_fields(s.subrange(1, s.len() as int))
    }
}

impl View for Val {
    type V = ValS;

    open spec fn view(&self) -> ValS {
        self.deep_view()
    }
}

/// The element view of a sequence of values is pointwise.
pub proof fn lemma_view_items(s: Seq<Val>)
    ensures
        view_items(s).len() == s.len(),
        forall|i: int| 0 <= i < s.len() ==> #[trigger] view_items(s)[i] == s[i].deep_view(),
    decreases s.len(),
{
    if s.len() > 0 {
        let rest = s.subrange(1, s.len() as int);
        lemma_view_items(rest);
        assert forall|i: int| 0 <= i < s.len() implies #[trigger] view_items(s)[i] == s[
            i
        ].deep_view() by {
            if i > 0 {
                assert(view_items(s)[i] == view_items(rest)[i - 1]);
                assert(rest[i - 1] == s[i]);
            }
        }
    }
}

/// The field view of a sequence of key/value pairs is pointwise.
pub proof fn lemma_view_fields(s: Seq<(String, Val)>)
    ensures
        view_fields(s).len() == s.len(),
        forall|i: int| 0 <= i < s.len() ==> #[trigger] view_fields(s)[i] == (s[i].0@, s[i].1.deep_view()),
    decreases s.len(),
{
    if s.len() > 0 {
        let rest = s.subrange(1, s.len() as int);
        lemma_view_fields(rest);
        assert forall|i: int| 0 <= i < s.len() implies #[trigger] view_fields(s)[i] == (s[i].0@, s[
            i
        ].1.deep_view()) by {
            if i > 0 {
                assert(view_fields(s)[i] == view_fields(rest)[i - 1]);
                assert(rest[i - 1] == s[i]);
            }
        }
    }
}

} // verus!
