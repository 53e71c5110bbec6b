use vstd::prelude::*;
use crate::value::{Val, ValS, view_items, lemma_view_items, view_fields, lemma_view_fields};
use crate::normalize::{convert_bson_fields_to_json_fields, norm_ok, normalize_spec};
use crate::ser::{render_spec, render_results, string_from_chars};
use crate::errors::RunError;

verus! {

/// The decimal digit character for `d`.
pub open spec fn digit_char(d: nat) -> char {
    ((48 + d) as u8) as char
}

/// The decimal text of `n`, without sign or leading zeros.
pub open spec fn dec_str(n: nat) -> Seq<char>
    decreases n,
{
    if n < 10 {
        seq![digit_char(n)]
    } else {
        dec_str(n / 10).push(digit_char(n % 10))
    }
}

/// The name of the output file for the 1-based stage index `i`.
pub open spec fn file_name_spec(i: nat) -> Seq<char> {
    "stage_"@ + dec_str(i) + "_result.json"@
}

/// The synthetic bounding stage that caps a prefix's result count.
pub open spec fn limit_stage_spec(limit: nat) -> ValS {
    ValS::Obj(seq![("$limit"@, ValS::Num(dec_str(limit)))])
}

/// Appends the decimal text of `n` to `out`.
fn push_dec(out: &mut Vec<char>, n: usize)
    ensures
        final(out)@ == old(out)@ + dec_str(n as nat),
    decreases n,
{
    if n < 10 {
        let d = (48 + n as u8) as char;
        out.push(d);
        proof {
            assert(out@ =~= old(out)@ + dec_str(n as nat));
        }
    } else {
        push_dec(out, n / 10);
        let d = (48 + (n % 10) as u8) as char;
        out.push(d);
        proof {
            assert(out@ =~= old(out)@ + dec_str(n as nat));
        }
    }
}

/// Appends the characters of `s` to `out`.
fn push_name_part(out: &mut Vec<char>, s: &str)
    ensures
        final(out)@ == old(out)@ + s@,
{
    let n = s.unicode_len();
    let mut i: usize = 0;
    while i < n
        invariant
            i <= n,
            n == s@.len(),
            out@ == old(out)@ + s@.subrange(0, i as int),
        decreases n - i,
    {
        let c = s.get_char(i);
        out.push(c);
        proof {
            assert(s@.subrange(0, i + 1) =~= s@.subrange(0, i as int).push(c));
        }
        i += 1;
    }
    proof {
        assert(s@.subrange(0, n as int) =~= s@);
    }
}

/// The output file name for the 1-based stage index `i`.
pub fn output_file_name(i: usize) -> (r: String)
    ensures
        r@ == file_name_spec(i as nat),
{
    let mut out: Vec<char> = Vec::new();
    push_name_part(&mut out, "stage_");
    push_dec(&mut out, i);
    push_name_part(&mut out, "_result.json");
    string_from_chars(&out)
}

impl Val {
    /// A deep copy of the value.
    #[verifier::loop_isolation(false)]
    pub fn duplicate(&self) -> (r: Val)
        ensures
            r@ == self@,
        decreases *self,
    {
        match self {
            Val::Null => Val::Null,
            Val::Bool(b) => Val::Bool(*b),
            Val::Num(s) => Val::Num(s.clone()),
            Val::Str(s) => Val::Str(s.clone()),
            Val::Arr(items) => {
                let mut out: Vec<Val> = Vec::new();
                let n = items.len();
                let mut i: usize = 0;
                while i < n
                    invariant
                        i <= n,
                        n == items@.len(),
                        out@.len() == i,
                        forall|j: int|
                            0 <= j < i ==> #[trigger] out@[j].deep_view() == items@[j].deep_view(),
                    decreases n - i,
                {
                    proof {
                        assert(decreases_to!(*self => *items));
                        assert(decreases_to!(*items => items@));
                        assert(decreases_to!(items@ => items@[i as int]));
                    }
                    let c = items[i].duplicate();
                    out.push(c);
                    i += 1;
                }
                proof {
                    lemma_view_items(out@);
                    lemma_view_items(items@);
                    assert(view_items(out@) =~= view_items(items@));
                }
                Val::Arr(out)
            },
            Val::Obj(fields) => {
                let mut out: Vec<(String, Val)> = Vec::new();
                let n = fields.len();
                let mut i: usize = 0;
                while i < n
                    invariant
                        i <= n,
                        n == fields@.len(),
                        out@.len() == i,
                        forall|j: int|
                            0 <= j < i ==> ((#[trigger] out@[j]).0@ == fields@[j].0@ && out@[
                                j
                            ].1.deep_view() == fields@[j].1.deep_view()),
                    decreases n - i,
                {
                    proof {
                        assert(decreases_to!(*self => *fields));
                        assert(decreases_to!(*fields => fields@));
                        assert(decreases_to!(fields@ => fields@[i as int]));
                        assert(decreases_to!(fields@[i as int] => fields@[i as int].1));
                    }
                    let k = fields[i].0.clone();
                    let c = fields[i].1.duplicate();
                    out.push((k, c));
                    i += 1;
                }
                proof {
                    lemma_view_fields(out@);
                    lemma_view_fields(fields@);
                    assert(view_fields(out@) =~= view_fields(fields@));
                }
                Val::Obj(out)
            },
        }
    }
}

/// Builds the synthetic bounding stage for `limit`.
pub fn make_limit_stage(limit: usize) -> (r: Val)
    ensures
        r@ == limit_stage_spec(limit as nat),
{
    let mut num: Vec<char> = Vec::new();
    push_dec(&mut num, limit);
    let token = string_from_chars(&num);
    let mut fs: Vec<(String, Val)> = Vec::new();
    fs.push((String::from_str("$limit"), Val::Num(token)));
    proof {
        lemma_view_fields(fs@);
        assert(view_fields(fs@) =~= seq![("$limit"@, ValS::Num(dec_str(limit as nat)))]);
    }
    Val::Obj(fs)
}

/// The sub-pipeline executed for prefix index `i`: a fresh copy of stages
/// `0 ..= i` in their original order, with exactly one bounding stage
/// appended. The original pipeline is only read, never changed.
#[verifier::loop_isolation(false)]
pub fn build_prefix(stages: &Vec<Val>, i: usize, limit: usize) -> (r: Vec<Val>)
    requires
        i < stages@.len(),
    ensures
        view_items(r@) == view_items(stages@).subrange(0, i + 1).push(
            limit_stage_spec(limit as nat),
        ),
{
    let n = stages.len();
    let mut prefix: Vec<Val> = Vec::new();
    let mut j: usize = 0;
    while j <= i
        invariant
            j <= i + 1,
            i < n,
            n == stages@.len(),
            prefix@.len() == j,
            forall|t: int|
                0 <= t < j ==> #[trigger] prefix@[t].deep_view() == stages@[t].deep_view(),
        decreases i + 1 - j,
    {
        let c = stages[j].duplicate();
        prefix.push(c);
        j += 1;
    }
    let cap = make_limit_stage(limit);
    prefix.push(cap);
    proof {
        lemma_view_items(prefix@);
        lemma_view_items(stages@);
        assert(view_items(prefix@) =~= view_items(stages@).subrange(0, i + 1).push(
            limit_stage_spec(limit as nat),
        ));
    }
    prefix
}

/// Whether every document in a result sequence can be normalized.
pub open spec fn all_norm_ok(ds: Seq<ValS>) -> bool {
    forall|i: int| 0 <= i < ds.len() ==> #[trigger] norm_ok(ds[i])
}

/// The normalization of a whole result sequence.
pub open spec fn normalize_all(ds: Seq<ValS>) -> Seq<ValS> {
    ds.map(|i: int, d: ValS| normalize_spec(d))
}

/// The incremental executor's state: which prefix of the pipeline runs
/// next, and (as ghost history) the names of the files emitted so far.
/// The caller executes each prefix against the data source and hands the
/// results back; the runner decides everything else.
pub struct Runner {
    /// The loaded pipeline; read, never changed.
    pub stages: Vec<Val>,
    /// The per-stage result cap pushed into each executed prefix.
    pub limit: usize,
    /// The prefix index to execute next (0-based).
    pub next: usize,
    /// The names of the output files emitted so far, in order.
    pub emitted: Ghost<Seq<Seq<char>>>,
}

impl Runner {
    /// The state invariant: one file per completed prefix, named after its
    /// 1-based stage index, in order.
    pub open spec fn wf(self) -> bool {
        &&& self.next <= self.stages@.len()
        &&& self.emitted@.len() == self.next
        &&& forall|j: int|
            0 <= j < self.next ==> #[trigger] self.emitted@[j] == file_name_spec((j + 1) as nat)
    }

    /// Starts a run over `stages` with the given per-stage cap.
    pub fn new(stages: Vec<Val>, limit: usize) -> (r: Runner)
        ensures
            r.wf(),
            r.stages == stages,
            r.limit == limit,
            r.next == 0,
            r.emitted@ == Seq::<Seq<char>>::empty(),
    {
        Runner { stages, limit, next: 0, emitted: Ghost(Seq::empty()) }
    }

    /// The bounded sub-pipeline to execute next, or `None` when every
    /// prefix has been processed.
    pub fn next_prefix(&self) -> (r: Option<Vec<Val>>)
        ensures
            self.next < self.stages@.len() ==> (r matches Some(p) && view_items(p@) == view_items(
                self.stages@,
            ).subrange(0, self.next + 1).push(limit_stage_spec(self.limit as nat))),
            self.next >= self.stages@.len() ==> r is None,
    {
        if self.next < self.stages.len() {
            Some(build_prefix(&self.stages, self.next, self.limit))
        } else {
            None
        }
    }

    /// Takes the documents that the data source returned for the current
    /// prefix, normalizes them, and produces the name and the full text of
    /// the output file for this stage. On success the runner advances to
    /// the next prefix; a normalization failure changes nothing and is
    /// fatal to the run.
    pub fn record_results(&mut self, docs: Vec<Val>) -> (r: Result<(String, String), RunError>)
        requires
            old(self).wf(),
            old(self).next < old(self).stages@.len(),
        ensures
            final(self).stages == old(self).stages,
            final(self).limit == old(self).limit,
            all_norm_ok(view_items(docs@)) ==> (r matches Ok(f) && {
                &&& f.0@ == file_name_spec((old(self).next + 1) as nat)
                &&& f.1@ == render_spec(normalize_all(view_items(docs@)))
                &&& final(self).next == old(self).next + 1
                &&& final(self).emitted@ == old(self).emitted@.push(f.0@)
                &&& final(self).wf()
            }),
            !all_norm_ok(view_items(docs@)) ==> (r matches Err(e) && e is Normalization
                && *final(self) == *old(self)),
    {
        let ghost dvs = view_items(docs@);
        proof {
            lemma_view_items(docs@);
        }
        let mut rest = docs;
        let mut normed: Vec<Val> = Vec::new();
        while rest.len() > 0
            invariant
                dvs == view_items(docs@),
                normed@.len() + rest@.len() == dvs.len(),
                rest@.len() <= dvs.len(),
                forall|j: int|
                    0 <= j < rest@.len() ==> #[trigger] rest@[j].deep_view() == dvs[
                        j + normed@.len()
                    ],
                forall|j: int|
                    0 <= j < normed@.len() ==> #[trigger] normed@[j].deep_view() == normalize_spec(
                        dvs[j],
                    ),
                forall|j: int| 0 <= j < normed@.len() ==> norm_ok(#[trigger] dvs[j]),
            decreases rest.len(),
        {
            let ghost k = normed@.len() as int;
            proof {
                lemma_view_items(rest@);
                assert(rest@[0].deep_view() == dvs[k]);
            }
            let d = rest.remove(0);
            match convert_bson_fields_to_json_fields(d) {
                Ok(nd) => {
                    normed.push(nd);
                },
                Err(e) => {
                    proof {
                        assert(!norm_ok(dvs[k]));
                        assert(!all_norm_ok(dvs));
                    }
                    return Err(e);
                },
            }
        }
        proof {
            assert(all_norm_ok(dvs));
            lemma_view_items(normed@);
            assert(view_items(normed@) =~= normalize_all(dvs));
        }
        let stage_count = self.stages.len();
        proof {
            assert(self.next < stage_count);
        }
        let name = output_file_name(self.next + 1);
        let content = render_results(normed);
        let ghost name_view = name@;
        let ghost old_next = self.next as int;
        self.next = self.next + 1;
        proof {
            self.emitted@ = self.emitted@.push(name_view);
            assert(self.emitted@.len() == self.next);
            assert forall|j: int| 0 <= j < self.next implies #[trigger] self.emitted@[j]
                == file_name_spec((j + 1) as nat) by {
                if j < old_next {
                    assert(self.emitted@[j] == old(self).emitted@[j]);
                } else {
                    assert(self.emitted@[j] == name_view);
                }
            }
            assert(self.wf());
        }
        Ok((name, content))
    }
}

/// Law: a run that has processed every prefix without a fatal error has
/// emitted exactly one output file per pipeline stage, named
/// `stage_1_result.json` through `stage_N_result.json` in order.
pub proof fn lemma_one_file_per_stage(r: Runner)
    requires
        r.wf(),
        r.next == r.stages@.len(),
    ensures
        r.emitted@.len() == view_items(r.stages@).len(),
        forall|j: int|
            0 <= j < r.emitted@.len() ==> #[trigger] r.emitted@[j] == file_name_spec(
                (j + 1) as nat,
            ),
{
    lemma_view_items(r.stages@);
}

} // verus!
