use vstd::prelude::*;
use crate::token::{token_wf, Token, B_LOWER_A};
use crate::value::{ValModel, Value};
use std::rc::Rc;

verus! {

/// The categorized failure reasons: operand out of the operation's legal
/// range or unknown verb, wrong shape, index or size out of bounds,
/// ungrammatical input, and a verb whose monadic form is intentionally
/// unimplemented.
#[derive(Clone, Copy, PartialEq, Eq, Structural, Debug)]
pub enum ErrorKind {
    Domain,
    Rank,
    Length,
    Parse,
    Nyi,
}

/// The operation a diagnostic points at.
#[derive(Clone, Copy, PartialEq, Eq, Structural, Debug)]
pub enum OpName {
    MonadicNotAVerb,
    DyadicNotAVerb,
    MonadicNotImplemented,
    MonadicEnumerate,
    MonadicCount,
    MonadicEnlist,
    MonadicReverse,
    DyadicAdd,
    DyadicModulo,
    DyadicTake,
    DyadicIndexAt,
    DyadicEqual,
    DyadicNotEqual,
    DyadicAnd,
    DyadicOr,
    DyadicProduct,
    Evaluate,
    EvaluateNoun,
    Tokenize,
}

/// One emitted diagnostic: the failing operation and its category.
/// Errors are ordinary values, so evaluation goes on; the front end
/// prints the diagnostics it finds here.
#[derive(Clone, Copy, PartialEq, Eq, Structural, Debug)]
pub struct Diagnostic {
    pub op: OpName,
    pub kind: ErrorKind,
}

/// How many 8-byte words the first `k` global slots hold in vectors:
/// the sum of `8 * length` over every vector slot among them.
pub open spec fn slots_bytes(globals: Seq<ValModel>, k: int) -> int
    decreases k,
{
    if k <= 0 {
        0
    } else {
        slots_bytes(globals, k - 1) + (match globals[k - 1] {
            ValModel::Vector(s) => 8 * s.len(),
            _ => 0,
        })
    }
}

pub proof fn lemma_slots_bytes_monotone(globals: Seq<ValModel>, j: int, k: int)
    requires
        0 <= j <= k,
    ensures
        slots_bytes(globals, j) <= slots_bytes(globals, k),
        slots_bytes(globals, j) >= 0,
    decreases k,
{
    if k > 0 && j < k {
        lemma_slots_bytes_monotone(globals, j, k - 1);
    }
    if j > 0 {
        lemma_slots_bytes_monotone(globals, 0, j - 1);
    }
}

/// The listing of vector-holding global slots among the first `k`: the
/// variable's letter and the element count, in slot order.
pub open spec fn listing_model(globals: Seq<ValModel>, k: int) -> Seq<(u8, nat)>
    decreases k,
{
    if k <= 0 {
        Seq::empty()
    } else {
        let pre = listing_model(globals, k - 1);
        match globals[k - 1] {
            ValModel::Vector(s) => pre.push(((B_LOWER_A + k - 1) as u8, s.len())),
            _ => pre,
        }
    }
}

/// No two vector-holding global slots hold the same contents.  Under
/// this hypothesis the workspace total is exact: aliased storage can
/// only hide behind equal contents.
pub open spec fn vectors_distinct(globals: Seq<ValModel>) -> bool {
    forall|i: int, j: int|
        0 <= i < j < globals.len() && #[trigger] globals[i] is Vector && #[trigger] globals[j]
            is Vector ==> globals[i] != globals[j]
}

/// Whether an earlier slot holds the same contents as slot `i`.
pub open spec fn repeats_earlier(globals: Seq<ValModel>, i: int) -> bool {
    exists|j: int| 0 <= j < i && globals[j] == globals[i]
}

/// The byte total over the first `k` slots with repeated contents
/// counted once.  The workspace can never fall short of this: storage
/// shared between slots implies equal contents, so only repeats can be
/// deduplicated away.
pub open spec fn distinct_slots_bytes(globals: Seq<ValModel>, k: int) -> int
    decreases k,
{
    if k <= 0 {
        0
    } else {
        distinct_slots_bytes(globals, k - 1) + (match globals[k - 1] {
            ValModel::Vector(s) => if repeats_earlier(globals, k - 1) {
                0
            } else {
                8 * s.len()
            },
            _ => 0,
        })
    }
}

pub proof fn lemma_distinct_slots_bytes_monotone(globals: Seq<ValModel>, j: int, k: int)
    requires
        0 <= j <= k,
    ensures
        distinct_slots_bytes(globals, j) <= distinct_slots_bytes(globals, k),
        distinct_slots_bytes(globals, j) >= 0,
    decreases k,
{
    if k > 0 && j < k {
        lemma_distinct_slots_bytes_monotone(globals, j, k - 1);
    }
    if j > 0 {
        lemma_distinct_slots_bytes_monotone(globals, 0, j - 1);
    }
}

/// Relies on `Rc::ptr_eq`: it returns true only when both handles share
/// one allocation, in which case they necessarily hold the same
/// contents.
#[verifier::external_body]
fn same_storage(a: &Rc<Vec<i64>>, b: &Rc<Vec<i64>>) -> (r: bool)
    ensures
        r ==> a@ == b@,
{
    Rc::ptr_eq(a, b)
}

/// Relies on `Rc::strong_count`: the number of strong handles to the
/// allocation, which counts at least the handle passed in.
#[verifier::external_body]
fn share_count(v: &Rc<Vec<i64>>) -> (r: usize)
    ensures
        r >= 1,
{
    Rc::strong_count(v)
}

/// The runtime environment: the 26 global bindings `a` to `z`, each
/// initially the atom 0, and the diagnostics emitted since the front end
/// last drained them.
pub struct Runtime {
    globals: Vec<Value>,
    diagnostics: Vec<Diagnostic>,
}

impl Runtime {
    /// There is one slot per letter.
    pub closed spec fn wf(self) -> bool {
        self.globals@.len() == 26
    }

    /// A well-formed environment has exactly 26 global slots, one per
    /// letter.
    pub proof fn lemma_wf_slot_count(self)
        ensures
            self.wf() ==> self.globals_model().len() == 26,
    {
    }

    /// The bound value of every global slot, in letter order.
    pub closed spec fn globals_model(self) -> Seq<ValModel> {
        self.globals@.map_values(|v: Value| v@)
    }

    /// The diagnostics emitted and not yet drained, oldest first.
    pub closed spec fn diags(self) -> Seq<Diagnostic> {
        self.diagnostics@
    }

    /// Create a new runtime environment.
    pub fn new() -> (r: Runtime)
        ensures
            r.wf(),
            r.globals_model().len() == 26,
            forall|i: int| 0 <= i < 26 ==> r.globals_model()[i] == ValModel::Atom(0),
            r.diags() == Seq::<Diagnostic>::empty(),
    {
        let mut globals: Vec<Value> = Vec::new();
        let mut i: usize = 0;
        while i < 26
            invariant
                i <= 26,
                globals@.len() == i,
                forall|k: int| 0 <= k < i ==> globals@[k]@ == ValModel::Atom(0),
            decreases 26 - i,
        {
            globals.push(Value::Atom(0));
            i += 1;
        }
        let r = Runtime { globals, diagnostics: Vec::new() };
        proof {
            assert(forall|i: int|
                0 <= i < 26 ==> r.globals_model()[i] == ValModel::Atom(0));
        }
        r
    }

    /// Record a diagnostic at the point an error is detected and hand
    /// back the error sentinel.
    pub fn report_error(&mut self, op: OpName, kind: ErrorKind) -> (r: Value)
        ensures
            final(self).wf() == old(self).wf(),
            final(self).globals_model() == old(self).globals_model(),
            final(self).diags() == old(self).diags().push((Diagnostic { op, kind })),
            r@ is Error,
    {
        self.diagnostics.push(Diagnostic { op, kind });
        Value::Error
    }

    pub fn rank_error(&mut self, op: OpName) -> (r: Value)
        ensures
            final(self).wf() == old(self).wf(),
            final(self).globals_model() == old(self).globals_model(),
            final(self).diags() == old(self).diags().push(
                (Diagnostic { op, kind: ErrorKind::Rank }),
            ),
            r@ is Error,
    {
        self.report_error(op, ErrorKind::Rank)
    }

    pub fn domain_error(&mut self, op: OpName) -> (r: Value)
        ensures
            final(self).wf() == old(self).wf(),
            final(self).globals_model() == old(self).globals_model(),
            final(self).diags() == old(self).diags().push(
                (Diagnostic { op, kind: ErrorKind::Domain }),
            ),
            r@ is Error,
    {
        self.report_error(op, ErrorKind::Domain)
    }

    pub fn length_error(&mut self, op: OpName) -> (r: Value)
        ensures
            final(self).wf() == old(self).wf(),
            final(self).globals_model() == old(self).globals_model(),
            final(self).diags() == old(self).diags().push(
                (Diagnostic { op, kind: ErrorKind::Length }),
            ),
            r@ is Error,
    {
        self.report_error(op, ErrorKind::Length)
    }

    pub fn parse_error(&mut self, op: OpName) -> (r: Value)
        ensures
            final(self).wf() == old(self).wf(),
            final(self).globals_model() == old(self).globals_model(),
            final(self).diags() == old(self).diags().push(
                (Diagnostic { op, kind: ErrorKind::Parse }),
            ),
            r@ is Error,
    {
        self.report_error(op, ErrorKind::Parse)
    }

    pub fn not_implemented_error(&mut self, op: OpName) -> (r: Value)
        ensures
            final(self).wf() == old(self).wf(),
            final(self).globals_model() == old(self).globals_model(),
            final(self).diags() == old(self).diags().push(
                (Diagnostic { op, kind: ErrorKind::Nyi }),
            ),
            r@ is Error,
    {
        self.report_error(op, ErrorKind::Nyi)
    }

    /// Convert a noun token to a value: a number to an atom, a global to
    /// a copy of its bound value (sharing, not deep-copying, a vector);
    /// any other token converts to the error sentinel, with no
    /// diagnostic — the caller decides what that means.
    pub fn noun_from_token(&mut self, token: &Token) -> (r: Value)
        requires
            old(self).wf(),
            token_wf(*token),
        ensures
            final(self).wf(),
            final(self).globals_model() == old(self).globals_model(),
            final(self).diags() == old(self).diags(),
            r@ == noun_model(old(self).globals_model(), *token),
    {
        match token {
            Token::Number(value) => Value::Atom(*value),
            Token::Global(name) => {
                let index = (*name - B_LOWER_A) as usize;
                self.globals[index].duplicate()
            },
            _ => Value::Error,
        }
    }

    /// Bind a value to a global slot (sharing a vector's storage) and
    /// hand the value back.
    pub fn assign_global(&mut self, index: usize, value: Value) -> (r: Value)
        requires
            old(self).wf(),
            index < 26,
        ensures
            final(self).wf(),
            final(self).globals_model() == old(self).globals_model().update(index as int, value@),
            final(self).diags() == old(self).diags(),
            r@ == value@,
    {
        let stored = value.duplicate();
        self.globals[index] = stored;
        proof {
            assert(self.globals_model() =~= old(self).globals_model().update(
                index as int,
                value@,
            ));
        }
        value
    }

    /// The memory charged to the workspace: `8 * length`, summed over
    /// every distinct vector reachable from a global slot, storage shared
    /// by several slots counted once.  The total never exceeds the sum
    /// over all vector slots, and equals it when no two vector slots hold
    /// the same contents (sharing can only hide behind equal contents)
    /// and the sum fits the machine word.
    pub fn workspace_bytes(&self) -> (r: usize)
        requires
            self.wf(),
        ensures
            r <= slots_bytes(self.globals_model(), 26),
            distinct_slots_bytes(self.globals_model(), 26) <= usize::MAX ==> r
                >= distinct_slots_bytes(self.globals_model(), 26),
            (vectors_distinct(self.globals_model()) && slots_bytes(self.globals_model(), 26)
                <= usize::MAX) ==> r == slots_bytes(self.globals_model(), 26),
    {
        let ghost gm = self.globals_model();
        let mut total: usize = 0;
        let mut i: usize = 0;
        while i < 26
            invariant
                self.wf(),
                gm == self.globals_model(),
                i <= 26,
                total <= slots_bytes(gm, i as int),
                distinct_slots_bytes(gm, 26) <= usize::MAX ==> total >= distinct_slots_bytes(
                    gm,
                    i as int,
                ),
                (vectors_distinct(gm) && slots_bytes(gm, 26) <= usize::MAX) ==> total
                    == slots_bytes(gm, i as int),
            decreases 26 - i,
        {
            proof {
                lemma_slots_bytes_monotone(gm, i as int, 26);
                lemma_slots_bytes_monotone(gm, i + 1, 26);
                lemma_distinct_slots_bytes_monotone(gm, i as int, 26);
                lemma_distinct_slots_bytes_monotone(gm, i + 1, 26);
                assert(gm[i as int] == self.globals@[i as int]@);
            }
            match &self.globals[i] {
                Value::Vector(vector) => {
                    let mut aliased = false;
                    let mut j: usize = 0;
                    while j < i
                        invariant
                            self.wf(),
                            gm == self.globals_model(),
                            i < 26,
                            j <= i,
                            self.globals@[i as int]@ == ValModel::Vector(vector@),
                            vectors_distinct(gm) ==> !aliased,
                            aliased ==> repeats_earlier(gm, i as int),
                        decreases i - j,
                    {
                        proof {
                            assert(gm[j as int] == self.globals@[j as int]@);
                        }
                        match &self.globals[j] {
                            Value::Vector(other) => {
                                if same_storage(other, vector) {
                                    proof {
                                        assert(gm[j as int] == gm[i as int]);
                                        assert(repeats_earlier(gm, i as int));
                                    }
                                    aliased = true;
                                }
                            },
                            _ => {},
                        }
                        j += 1;
                    }
                    if !aliased {
                        let step = vector.len().checked_mul(8).unwrap_or(usize::MAX);
                        total = total.checked_add(step).unwrap_or(usize::MAX);
                    }
                },
                _ => {},
            }
            i += 1;
        }
        total
    }

    /// The listing of vector-holding globals: for each, its letter, its
    /// element count, and the number of live references to its storage
    /// (at least one: the slot itself).
    pub fn globals_listing(&self) -> (r: Vec<(u8, usize, usize)>)
        requires
            self.wf(),
        ensures
            r@.map_values(|e: (u8, usize, usize)| (e.0, e.1 as nat)) == listing_model(
                self.globals_model(),
                26,
            ),
            forall|k: int| 0 <= k < r@.len() ==> #[trigger] r@[k].2 >= 1,
    {
        let ghost gm = self.globals_model();
        let mut out: Vec<(u8, usize, usize)> = Vec::new();
        let mut i: usize = 0;
        while i < 26
            invariant
                self.wf(),
                gm == self.globals_model(),
                i <= 26,
                out@.map_values(|e: (u8, usize, usize)| (e.0, e.1 as nat)) == listing_model(
                    gm,
                    i as int,
                ),
                forall|k: int| 0 <= k < out@.len() ==> #[trigger] out@[k].2 >= 1,
            decreases 26 - i,
        {
            proof {
                assert(gm[i as int] == self.globals@[i as int]@);
            }
            match &self.globals[i] {
                Value::Vector(vector) => {
                    let name = B_LOWER_A + (i as u8);
                    let entry = (name, vector.len(), share_count(vector));
                    out.push(entry);
                    proof {
                        assert(out@.map_values(|e: (u8, usize, usize)| (e.0, e.1 as nat))
                            =~= listing_model(gm, i + 1));
                    }
                },
                _ => {
                    proof {
                        assert(out@.map_values(|e: (u8, usize, usize)| (e.0, e.1 as nat))
                            =~= listing_model(gm, i + 1));
                    }
                },
            }
            i += 1;
        }
        out
    }

    /// Hand out the diagnostics emitted so far, oldest first, and clear
    /// the store.
    pub fn drain_diagnostics(&mut self) -> (r: Vec<Diagnostic>)
        ensures
            final(self).wf() == old(self).wf(),
            final(self).globals_model() == old(self).globals_model(),
            final(self).diags() == Seq::<Diagnostic>::empty(),
            r@ == old(self).diags(),
    {
        let mut out: Vec<Diagnostic> = Vec::new();
        let n = self.diagnostics.len();
        let mut i: usize = 0;
        while i < n
            invariant
                i <= n,
                n == self.diagnostics@.len(),
                self == old(self),
                out@ == self.diagnostics@.take(i as int),
            decreases n - i,
        {
            out.push(self.diagnostics[i]);
            proof {
                assert(out@ =~= self.diagnostics@.take(i + 1));
            }
            i += 1;
        }
        self.diagnostics.clear();
        proof {
            assert(out@ =~= old(self).diagnostics@);
        }
        out
    }
}

/// What a noun token denotes: a number its atom, a global the value its
/// slot holds; any other token denotes the error sentinel.
pub open spec fn noun_model(globals: Seq<ValModel>, t: Token) -> ValModel {
    match t {
        Token::Number(x) => ValModel::Atom(x),
        Token::Global(g) => globals[g - B_LOWER_A],
        _ => ValModel::Error,
    }
}

} // verus!
