//! Checkpoints: named tensors, what is taken of a published checkpoint, and weight normalisation.

use crate::graph::{axis_sum, product, quotient, single, unary, Graph, UnaryOp};
use crate::tensor::{
    alike, broadcast_shape, broadcastable, graph, is_float, is_single, is_sound, on_cpu, plain, shape, sound,
    sum_keepdim, to_single, MAX_AXES,
};
use crate::text::{same, strip_prefix, strip_suffix};
use candle_core::{Error, Tensor};
use vstd::prelude::*;
use vstd::set_lib::{lemma_map_size, lemma_set_disjoint_lens};

verus! {

/// The tensors of a list of named tensors; of two with one name the later counts.
pub open spec fn tensors_of(entries: Seq<(String, Tensor)>) -> Map<Seq<char>, Tensor>
    decreases entries.len(),
{
    if entries.len() == 0 {
        Map::empty()
    } else {
        tensors_of(entries.drop_last()).insert(entries.last().0@, entries.last().1)
    }
}

/// Whether no name occurs twice.
pub open spec fn distinct(entries: Seq<(String, Tensor)>) -> bool {
    forall|i: int, j: int| 0 <= i < j < entries.len() ==> (#[trigger] entries[i]).0@ != (#[trigger] entries[j]).0@
}

/// Tensors by name: a state dict.
pub struct StateDict {
    entries: Vec<(String, Tensor)>,
}

impl View for StateDict {
    type V = Map<Seq<char>, Tensor>;

    closed spec fn view(&self) -> Map<Seq<char>, Tensor> {
        tensors_of(self.entries@)
    }
}

/// A name of the list stands for a tensor, and the other way round.
proof fn lemma_names(entries: Seq<(String, Tensor)>)
    ensures
        forall|i: int| 0 <= i < entries.len() ==> tensors_of(entries).contains_key((#[trigger] entries[i]).0@),
        forall|name: Seq<char>| #[trigger]
            tensors_of(entries).contains_key(name) ==> exists|i: int|
                0 <= i < entries.len() && (#[trigger] entries[i]).0@ == name,
    decreases entries.len(),
{
    if entries.len() > 0 {
        let front = entries.drop_last();
        lemma_names(front);
        assert forall|i: int| 0 <= i < entries.len() implies tensors_of(entries).contains_key(
            (#[trigger] entries[i]).0@,
        ) by {
            if i < front.len() {
                assert(entries[i] == front[i]);
            }
        }
        assert forall|name: Seq<char>| #[trigger] tensors_of(entries).contains_key(name) implies exists|i: int|
            0 <= i < entries.len() && (#[trigger] entries[i]).0@ == name by {
            if name == entries.last().0@ {
                assert(entries[entries.len() - 1].0@ == name);
            } else {
                assert(tensors_of(front).contains_key(name));
                let i = choose|i: int| 0 <= i < front.len() && (#[trigger] front[i]).0@ == name;
                assert(entries[i].0@ == name);
            }
        }
    }
}

/// Where no name occurs twice, every entry counts.
proof fn lemma_values(entries: Seq<(String, Tensor)>)
    requires
        distinct(entries),
    ensures
        forall|i: int| 0 <= i < entries.len() ==> tensors_of(entries)[(#[trigger] entries[i]).0@] == entries[i].1,
    decreases entries.len(),
{
    if entries.len() > 0 {
        let front = entries.drop_last();
        assert(distinct(front)) by {
            assert forall|i: int, j: int| 0 <= i < j < front.len() implies (#[trigger] front[i]).0@ != (
            #[trigger] front[j]).0@ by {
                assert(entries[i].0@ != entries[j].0@);
            }
        }
        lemma_values(front);
        assert forall|i: int| 0 <= i < entries.len() implies tensors_of(entries)[(#[trigger] entries[i]).0@]
            == entries[i].1 by {
            if i < front.len() {
                assert(front[i] == entries[i]);
                assert(entries[i].0@ != entries[entries.len() - 1].0@);
            }
        }
    }
}

/// Replacing the tensor of one entry replaces it under its name.
proof fn lemma_replace(entries: Seq<(String, Tensor)>, i: int, t: Tensor)
    requires
        distinct(entries),
        0 <= i < entries.len(),
    ensures
        distinct(entries.update(i, (entries[i].0, t))),
        tensors_of(entries.update(i, (entries[i].0, t))) == tensors_of(entries).insert(entries[i].0@, t),
    decreases entries.len(),
{
    let name = entries[i].0@;
    let after = entries.update(i, (entries[i].0, t));
    assert(distinct(after)) by {
        assert forall|j: int, k: int| 0 <= j < k < after.len() implies (#[trigger] after[j]).0@ != (
        #[trigger] after[k]).0@ by {
            assert(entries[j].0@ != entries[k].0@);
        }
    }
    lemma_names(entries);
    lemma_names(after);
    lemma_values(entries);
    lemma_values(after);
    let m = tensors_of(entries).insert(name, t);
    assert forall|n: Seq<char>| #[trigger] tensors_of(after).contains_key(n) <==> m.contains_key(n) by {
        if tensors_of(after).contains_key(n) {
            let j = choose|j: int| 0 <= j < after.len() && (#[trigger] after[j]).0@ == n;
            assert(entries[j].0@ == n);
        }
        if m.contains_key(n) {
            if n == name {
                assert(after[i].0@ == n);
            } else {
                let j = choose|j: int| 0 <= j < entries.len() && (#[trigger] entries[j]).0@ == n;
                assert(after[j].0@ == n);
            }
        }
    }
    assert forall|n: Seq<char>| #[trigger] tensors_of(after).contains_key(n) implies tensors_of(after)[n] == m[n] by {
        let j = choose|j: int| 0 <= j < after.len() && (#[trigger] after[j]).0@ == n;
        assert(entries[j].0@ == n);
        if j == i {
            assert(after[i].1 == t);
        } else {
            assert(entries[i].0@ != n) by {
                if i < j {
                    assert(entries[i].0@ != entries[j].0@);
                } else {
                    assert(entries[j].0@ != entries[i].0@);
                }
            }
        }
    }
    assert(tensors_of(after) =~= m);
}

impl StateDict {
    #[verifier::type_invariant]
    spec fn wf(self) -> bool {
        distinct(self.entries@)
    }

    /// No tensors.
    pub fn new() -> (r: StateDict)
        ensures
            r@ == Map::<Seq<char>, Tensor>::empty(),
    {
        StateDict { entries: Vec::new() }
    }

    /// The tensors of a list; of two with one name the later counts.
    pub fn from_entries(entries: Vec<(String, Tensor)>) -> (r: StateDict)
        ensures
            r@ == tensors_of(entries@),
    {
        let mut r = StateDict::new();
        let mut i: usize = 0;
        while i < entries.len()
            invariant
                i <= entries@.len(),
                r@ == tensors_of(entries@.take(i as int)),
            decreases entries@.len() - i,
        {
            let ghost next = entries@.take(i + 1);
            assert(next.drop_last() == entries@.take(i as int));
            r.insert(entries[i].0.clone(), entries[i].1.clone());
            i += 1;
        }
        assert(entries@.take(entries@.len() as int) == entries@);
        r
    }

    /// Where `name` stands in the list.
    fn position(&self, name: &str) -> (r: Option<usize>)
        ensures
            r matches Some(i) ==> i < self.entries@.len() && self.entries@[i as int].0@ == name@,
            r is None ==> forall|i: int| 0 <= i < self.entries@.len() ==> (#[trigger] self.entries@[i]).0@ != name@,
    {
        let mut i: usize = 0;
        while i < self.entries.len()
            invariant
                i <= self.entries@.len(),
                forall|k: int| 0 <= k < i ==> (#[trigger] self.entries@[k]).0@ != name@,
            decreases self.entries@.len() - i,
        {
            if same(self.entries[i].0.as_str(), name) {
                return Some(i);
            }
            i += 1;
        }
        None
    }

    /// The tensor of that name.
    pub fn get(&self, name: &str) -> (r: Option<&Tensor>)
        ensures
            r is Some <==> self@.contains_key(name@),
            r matches Some(t) ==> *t == self@[name@],
    {
        proof {
            use_type_invariant(self);
            lemma_names(self.entries@);
            lemma_values(self.entries@);
        }
        match self.position(name) {
            Some(i) => Some(&self.entries[i].1),
            None => None,
        }
    }

    /// Puts a tensor in, in place of one of the same name.
    pub fn insert(&mut self, name: String, t: Tensor)
        ensures
            final(self)@ == old(self)@.insert(name@, t),
    {
        proof {
            use_type_invariant(&*self);
        }
        let mut entries: Vec<(String, Tensor)> = Vec::new();
        std::mem::swap(&mut entries, &mut self.entries);
        let whole = StateDict { entries };
        *self = whole.with(name, t);
    }

    /// The state dict with one tensor put in.
    fn with(self, name: String, t: Tensor) -> (r: StateDict)
        ensures
            r@ == self@.insert(name@, t),
    {
        proof {
            use_type_invariant(&self);
        }
        let found = self.position(name.as_str());
        let mut entries = self.entries;
        match found {
            Some(i) => {
                proof {
                    lemma_replace(entries@, i as int, t);
                }
                let ghost before = entries@;
                let kept = entries[i].0.clone();
                assert(kept == before[i as int].0);
                entries.set(i, (kept, t));
            },
            None => {
                let ghost before = entries@;
                entries.push((name, t));
                assert(entries@.drop_last() == before);
            },
        }
        StateDict { entries }
    }

    /// The tensors with their names, every name once.
    pub fn entries(&self) -> (r: &Vec<(String, Tensor)>)
        ensures
            distinct(r@),
            tensors_of(r@) == self@,
    {
        proof {
            use_type_invariant(self);
        }
        &self.entries
    }
}

/// Why tensors could not be taken of a checkpoint.
#[derive(Debug)]
pub enum CheckpointError {
    /// No tensor has a name that was asked for.
    NoTensors,
    /// The magnitude of that name has no direction beside it.
    MissingDirection(String),
    /// A tensor operation failed.
    Backend(Error),
}

/// The name under which a tensor of name `name` is taken, if it is: one under `prefix`, where
/// there is one, with it or without it.
pub open spec fn taken_name(name: Seq<char>, prefix: Option<Seq<char>>, strip: bool) -> Option<Seq<char>> {
    match prefix {
        None => Some(name),
        Some(p) => if !p.is_prefix_of(name) {
            None
        } else if strip {
            Some(name.skip(p.len() as int))
        } else {
            Some(name)
        },
    }
}

/// The tensors under `prefix`, where there is one, with it or without it in their names; of two
/// with one name the later counts.
pub open spec fn taken(entries: Seq<(String, Tensor)>, prefix: Option<Seq<char>>, strip: bool) -> Map<
    Seq<char>,
    Tensor,
>
    decreases entries.len(),
{
    if entries.len() == 0 {
        Map::empty()
    } else {
        let before = taken(entries.drop_last(), prefix, strip);
        match taken_name(entries.last().0@, prefix, strip) {
            Some(name) => before.insert(name, entries.last().1),
            None => before,
        }
    }
}

/// Whether all tensors that are taken are in main memory, where they can be converted.
pub open spec fn are_convertible(entries: Seq<(String, Tensor)>, prefix: Option<Seq<char>>, strip: bool) -> bool {
    forall|i: int|
        0 <= i < entries.len() && taken_name((#[trigger] entries[i]).0@, prefix, strip) is Some ==> on_cpu(
            entries[i].1,
        )
}

/// Whether all tensors that are taken begin within their storage, where they can be read.
pub open spec fn are_readable(entries: Seq<(String, Tensor)>, prefix: Option<Seq<char>>) -> bool {
    forall|i: int|
        0 <= i < entries.len() && taken_name((#[trigger] entries[i]).0@, prefix, false) is Some ==> sound(entries[i].1)
}

/// Whether all tensors under `prefix`, or all where none is given, can be read.
pub fn can_read(all: &Vec<(String, Tensor)>, prefix: Option<&str>) -> (r: bool)
    ensures
        r == are_readable(all@, text_of(prefix)),
{
    let mut i: usize = 0;
    while i < all.len()
        invariant
            i <= all@.len(),
            forall|k: int|
                0 <= k < i && taken_name((#[trigger] all@[k]).0@, text_of(prefix), false) is Some ==> sound(all@[k].1),
        decreases all@.len() - i,
    {
        if take_name(&all[i].0, prefix, false).is_some() && !is_sound(&all[i].1) {
            assert(!sound(all@[i as int].1));
            return false;
        }
        i += 1;
    }
    true
}

/// Whether `copy` holds the tensors of `from`, converted to single precision.
pub open spec fn is_single_copy(from: Map<Seq<char>, Tensor>, copy: Map<Seq<char>, Tensor>) -> bool {
    &&& forall|name: Seq<char>| #[trigger] copy.contains_key(name) <==> from.contains_key(name)
    &&& forall|name: Seq<char>| #[trigger]
        copy.contains_key(name) ==> shape(copy[name]) == shape(from[name]) && is_float(copy[name]) && is_single(
            copy[name],
        ) && on_cpu(copy[name]) == on_cpu(from[name]) && sound(copy[name]) && graph(copy[name]) == single(
            graph(from[name]),
        )
}

/// The view of an optional text.
pub open spec fn text_of(prefix: Option<&str>) -> Option<Seq<char>> {
    match prefix {
        Some(p) => Some(p@),
        None => None,
    }
}

/// The name under which a tensor is taken, if it is.
fn take_name(name: &String, prefix: Option<&str>, strip: bool) -> (r: Option<String>)
    ensures
        r matches Some(n) ==> taken_name(name@, text_of(prefix), strip) == Some(n@),
        r is None ==> taken_name(name@, text_of(prefix), strip) is None,
{
    match prefix {
        None => Some(name.clone()),
        Some(p) => match strip_prefix(name.as_str(), p) {
            None => None,
            Some(rest) => {
                assert(rest@ == name@.skip(p@.len() as int));
                if strip {
                    Some(rest)
                } else {
                    Some(name.clone())
                }
            },
        },
    }
}

/// The tensors under `prefix`, in single precision.
fn take(all: &Vec<(String, Tensor)>, prefix: Option<&str>, strip: bool) -> (r: Result<StateDict, Error>)
    requires
        are_readable(all@, text_of(prefix)),
    ensures
        r matches Ok(d) ==> is_single_copy(taken(all@, text_of(prefix), strip), d@),
        taken(all@, text_of(prefix), strip) == Map::<Seq<char>, Tensor>::empty() ==> r is Ok,
        are_convertible(all@, text_of(prefix), strip) ==> r is Ok,
{
    let ghost p = text_of(prefix);
    let mut out = StateDict::new();
    let mut i: usize = 0;
    while i < all.len()
        invariant
            p == text_of(prefix),
            are_readable(all@, p),
            i <= all@.len(),
            is_single_copy(taken(all@.take(i as int), p, strip), out@),
        decreases all@.len() - i,
    {
        let ghost next = all@.take(i + 1);
        assert(next.drop_last() == all@.take(i as int));
        let ghost before = taken(all@.take(i as int), p, strip);
        match take_name(&all[i].0, prefix, strip) {
            Some(name) => {
                match to_single(&all[i].1) {
                    Ok(t) => {
                        out.insert(name, t);
                    },
                    Err(e) => {
                        proof {
                            assert(taken(next, p, strip).contains_key(name@));
                            lemma_taken_grows(all@, i + 1, p, strip, name@);
                        }
                        return Err(e);
                    },
                }
            },
            None => {},
        }
        i += 1;
    }
    assert(all@.take(all@.len() as int) == all@);
    Ok(out)
}

/// What is taken of the first entries is taken of all.
proof fn lemma_taken_grows(
    entries: Seq<(String, Tensor)>,
    n: int,
    prefix: Option<Seq<char>>,
    strip: bool,
    name: Seq<char>,
)
    requires
        0 <= n <= entries.len(),
        taken(entries.take(n), prefix, strip).contains_key(name),
    ensures
        taken(entries, prefix, strip).contains_key(name),
    decreases entries.len(),
{
    if n < entries.len() {
        let front = entries.drop_last();
        assert(front.take(n) == entries.take(n));
        lemma_taken_grows(front, n, prefix, strip, name);
    } else {
        assert(entries.take(n) == entries);
    }
}

/// The tensors under `prefix`, if one is given, in single precision, under the rest of their
/// names.
pub fn select(all: &Vec<(String, Tensor)>, prefix: Option<&str>) -> (r: Result<StateDict, CheckpointError>)
    requires
        are_readable(all@, text_of(prefix)),
    ensures
        r matches Ok(d) ==> is_single_copy(taken(all@, text_of(prefix), true), d@),
        taken(all@, text_of(prefix), true) == Map::<Seq<char>, Tensor>::empty() <==> r matches Err(
            CheckpointError::NoTensors,
        ),
        r matches Err(e) ==> e is NoTensors || e is Backend,
        are_convertible(all@, text_of(prefix), true) ==> !(r matches Err(CheckpointError::Backend(_))),
{
    match take(all, prefix, true) {
        Ok(d) => {
            let listed = d.entries();
            let none = listed.len() == 0;
            proof {
                let from = taken(all@, text_of(prefix), true);
                lemma_names(listed@);
                if none {
                    assert(d@ =~= Map::<Seq<char>, Tensor>::empty());
                    assert forall|name: Seq<char>| !#[trigger] from.contains_key(name) by {
                        assert(!d@.contains_key(name));
                    }
                    assert(from =~= Map::<Seq<char>, Tensor>::empty());
                } else {
                    let name = listed@[0].0@;
                    assert(d@.contains_key(name));
                    assert(from.contains_key(name));
                }
            }
            if none {
                Err(CheckpointError::NoTensors)
            } else {
                Ok(d)
            }
        },
        Err(e) => Err(CheckpointError::Backend(e)),
    }
}

/// The tensors under `prefix`, in single precision, under their own names.
pub fn subset(all: &Vec<(String, Tensor)>, prefix: &str) -> (r: Result<StateDict, CheckpointError>)
    requires
        are_readable(all@, Some(prefix@)),
    ensures
        r matches Ok(d) ==> is_single_copy(taken(all@, Some(prefix@), false), d@),
        r matches Err(e) ==> e is Backend,
        taken(all@, Some(prefix@), false) == Map::<Seq<char>, Tensor>::empty() ==> r is Ok,
        are_convertible(all@, Some(prefix@), false) ==> r is Ok,
{
    match take(all, Some(prefix), false) {
        Ok(d) => Ok(d),
        Err(e) => Err(CheckpointError::Backend(e)),
    }
}

/// The name of the magnitude of a normalised weight.
pub open spec fn magnitude_name(base: Seq<char>) -> Seq<char> {
    base + "weight_g"@
}

/// The name of the direction of a normalised weight.
pub open spec fn direction_name(base: Seq<char>) -> Seq<char> {
    base + "weight_v"@
}

/// The name of a weight.
pub open spec fn weight_name(base: Seq<char>) -> Seq<char> {
    base + "weight"@
}

/// Whether the tensor of that name goes into a folded weight.
pub open spec fn is_folded_in(sd: Map<Seq<char>, Tensor>, name: Seq<char>) -> bool {
    exists|base: Seq<char>|
        sd.contains_key(#[trigger] magnitude_name(base)) && (name == magnitude_name(base) || name == direction_name(
            base,
        ))
}

/// Whether the tensor of that name stays as it is.
pub open spec fn stays(sd: Map<Seq<char>, Tensor>, name: Seq<char>) -> bool {
    sd.contains_key(name) && !is_folded_in(sd, name)
}

/// Whether `out` is `sd` with its normalised weights folded: every magnitude has a direction, and
/// the two give way to the weight. A tensor that goes into no folded weight stays, also where it
/// has the name of one.
pub open spec fn is_weight_norm_fold(sd: Map<Seq<char>, Tensor>, out: Map<Seq<char>, Tensor>) -> bool {
    &&& forall|name: Seq<char>| #[trigger]
        out.contains_key(name) <==> stays(sd, name) || exists|base: Seq<char>|
            sd.contains_key(#[trigger] magnitude_name(base)) && name == weight_name(base)
    &&& forall|name: Seq<char>| #[trigger] stays(sd, name) ==> out[name] == sd[name]
    &&& forall|base: Seq<char>|
        sd.contains_key(#[trigger] magnitude_name(base)) ==> sd.contains_key(direction_name(base)) && (stays(
            sd,
            weight_name(base),
        ) || is_folded(sd[direction_name(base)], sd[magnitude_name(base)], out[weight_name(base)]))
}

/// Whether folding the normalised weights of `sd` can fail with `e`: a magnitude has no direction, or
/// it has one, but the shapes do not meet or the tensors are not in main memory in single precision.
pub open spec fn is_fold_error(sd: Map<Seq<char>, Tensor>, e: CheckpointError) -> bool {
    match e {
        CheckpointError::NoTensors => false,
        CheckpointError::MissingDirection(name) => exists|base: Seq<char>|
            name@ == #[trigger] magnitude_name(base) && sd.contains_key(name@) && !sd.contains_key(
                direction_name(base),
            ),
        CheckpointError::Backend(_) => exists|base: Seq<char>|
            sd.contains_key(#[trigger] magnitude_name(base)) && sd.contains_key(direction_name(base)) && !folds(
                sd[direction_name(base)],
                sd[magnitude_name(base)],
            ),
    }
}

/// The sum of `x` over the axes `1 .. n`, which are kept with extent 1.
pub open spec fn row_sums(x: Graph, n: nat) -> Graph
    decreases n,
{
    if n <= 1 { x } else { axis_sum(row_sums(x, (n - 1) as nat), n - 1, true) }
}

/// The shape of one value per row.
pub open spec fn row_shape(dims: Seq<usize>) -> Seq<usize> {
    Seq::new(dims.len(), |i: int| if i == 0 { dims[0] } else { 1 })
}

/// The weight of direction `v`, which has `rank` axes, and magnitude `g`: `v * g / |v|`, with the
/// Euclidean norm over all axes but the first.
pub open spec fn folded(v: Graph, g: Graph, rank: nat) -> Graph {
    product(v, quotient(g, unary(UnaryOp::Sqrt, row_sums(unary(UnaryOp::Sqr, v), rank))))
}

/// Whether `w` is the weight of direction `v` and magnitude `g`. It has the direction's element type
/// and lives where it does.
pub open spec fn is_folded(v: Tensor, g: Tensor, w: Tensor) -> bool {
    &&& graph(w) == folded(graph(v), graph(g), shape(v).len())
    &&& shape(w) == broadcast_shape(shape(v), broadcast_shape(shape(g), row_shape(shape(v))))
    &&& alike(w, v)
}

/// Whether a direction and a magnitude are in main memory in single precision and their shapes meet,
/// so that they can be folded.
pub open spec fn folds(v: Tensor, g: Tensor) -> bool {
    let rows = row_shape(shape(v));
    &&& plain(v)
    &&& plain(g)
    &&& broadcastable(shape(g), rows)
    &&& broadcastable(shape(v), broadcast_shape(shape(g), rows))
}

/// Whether a direction and a magnitude are such that candle can compute with them: the direction holds
/// floating-point numbers and begins within its storage, and neither has more axes than candle can
/// walk through.
pub open spec fn is_pair(v: Tensor, g: Tensor) -> bool {
    &&& is_float(v)
    &&& sound(v)
    &&& shape(v).len() <= MAX_AXES
    &&& shape(g).len() <= MAX_AXES
}

/// The weight of direction `v` and magnitude `g`.
fn fold(v: &Tensor, g: &Tensor) -> (r: Result<Tensor, Error>)
    requires
        is_pair(*v, *g),
    ensures
        r matches Ok(w) ==> is_folded(*v, *g, w),
        folds(*v, *g) ==> (r matches Ok(w) && plain(w)),
{
    let rank = v.dims().len();
    let mut norm = v.sqr()?;
    let ghost squares = graph(norm);
    let mut d: usize = 1;
    while d < rank
        invariant
            rank == shape(*v).len(),
            1 <= d,
            if rank == 0 { d == 1 } else { d <= rank },
            is_float(norm),
            sound(norm),
            shape(norm).len() == rank,
            forall|i: int| 0 <= i < rank ==> #[trigger] shape(norm)[i] == (if 1 <= i < d { 1 } else { shape(*v)[i] }),
            graph(norm) == row_sums(squares, d as nat),
            plain(*v) ==> plain(norm),
        decreases rank - d,
    {
        norm = sum_keepdim(&norm, d)?;
        d += 1;
    }
    assert(graph(norm) == row_sums(squares, rank as nat));
    let norm = norm.sqrt()?;
    assert(shape(norm) == row_shape(shape(*v)));
    let ratio = g.broadcast_div(&norm)?;
    v.broadcast_mul(&ratio)
}

/// Whether `name` is among the first `n` names.
spec fn seen(entries: Seq<(String, Tensor)>, n: int, name: Seq<char>) -> bool {
    exists|k: int| 0 <= k < n && (#[trigger] entries[k]).0@ == name
}

/// Whether `name` is listed.
spec fn lists(names: Seq<String>, name: Seq<char>) -> bool {
    exists|k: int| 0 <= k < names.len() && (#[trigger] names[k])@ == name
}

/// Whether `name` is listed.
fn is_listed(names: &Vec<String>, name: &String) -> (r: bool)
    ensures
        r == lists(names@, name@),
{
    let mut k: usize = 0;
    while k < names.len()
        invariant
            k <= names@.len(),
            forall|j: int| 0 <= j < k ==> (#[trigger] names@[j])@ != name@,
        decreases names@.len() - k,
    {
        if names[k] == *name {
            assert(names@[k as int]@ == name@);
            return true;
        }
        k += 1;
    }
    false
}

/// `text` followed by `more`.
fn joined(text: &String, more: &str) -> (r: String)
    ensures
        r@ == text@ + more@,
{
    let mut r = text.clone();
    r.append(more);
    r
}

/// Names with one ending are the same only if what stands before it is.
proof fn lemma_same_base(a: Seq<char>, b: Seq<char>, ending: Seq<char>)
    requires
        a + ending == b + ending,
    ensures
        a == b,
{
    let n = (a + ending).len() - ending.len();
    assert((a + ending).take(n) == a);
    assert((b + ending).take(n) == b);
}

/// What is known once the magnitudes among the first `n` entries are folded.
spec fn folded_so_far(
    sd: Map<Seq<char>, Tensor>,
    entries: Seq<(String, Tensor)>,
    n: int,
    out: Map<Seq<char>, Tensor>,
    done: Seq<String>,
) -> bool {
    &&& forall|base: Seq<char>| #[trigger]
        out.contains_key(weight_name(base)) <==> seen(entries, n, magnitude_name(base))
    &&& forall|name: Seq<char>| #[trigger]
        out.contains_key(name) ==> exists|base: Seq<char>| name == #[trigger] weight_name(base)
    &&& forall|base: Seq<char>|
        seen(entries, n, #[trigger] magnitude_name(base)) ==> sd.contains_key(direction_name(base)) && is_folded(
            sd[direction_name(base)],
            sd[magnitude_name(base)],
            out[weight_name(base)],
        )
    &&& forall|name: Seq<char>| #[trigger]
        lists(done, name) <==> exists|base: Seq<char>|
            seen(entries, n, #[trigger] magnitude_name(base)) && (name == magnitude_name(base) || name
                == direction_name(base))
}

/// One more name is seen.
proof fn lemma_seen_step(entries: Seq<(String, Tensor)>, n: int, name: Seq<char>)
    requires
        0 <= n < entries.len(),
    ensures
        seen(entries, n + 1, name) <==> seen(entries, n, name) || entries[n].0@ == name,
{
    if entries[n].0@ == name {
        assert(seen(entries, n + 1, name));
    }
    if seen(entries, n, name) {
        let k = choose|k: int| 0 <= k < n && (#[trigger] entries[k]).0@ == name;
        assert(entries[k].0@ == name);
    }
}

/// An entry that is no magnitude changes nothing.
proof fn lemma_not_a_magnitude(
    sd: Map<Seq<char>, Tensor>,
    entries: Seq<(String, Tensor)>,
    n: int,
    out: Map<Seq<char>, Tensor>,
    done: Seq<String>,
)
    requires
        0 <= n < entries.len(),
        !"weight_g"@.is_suffix_of(entries[n].0@),
        folded_so_far(sd, entries, n, out, done),
    ensures
        folded_so_far(sd, entries, n + 1, out, done),
{
    assert forall|base: Seq<char>| seen(entries, n + 1, #[trigger] magnitude_name(base)) <==> seen(
        entries,
        n,
        magnitude_name(base),
    ) by {
        lemma_seen_step(entries, n, magnitude_name(base));
        let name = magnitude_name(base);
        assert(name.subrange(name.len() - "weight_g"@.len(), name.len() as int) == "weight_g"@);
        assert("weight_g"@.is_suffix_of(name));
    }
}

/// An entry that is a magnitude adds its weight.
proof fn lemma_one_more_magnitude(
    sd: Map<Seq<char>, Tensor>,
    entries: Seq<(String, Tensor)>,
    n: int,
    out: Map<Seq<char>, Tensor>,
    done: Seq<String>,
    base: Seq<char>,
    w: Tensor,
    after: Seq<String>,
)
    requires
        0 <= n < entries.len(),
        entries[n].0@ == magnitude_name(base),
        sd.contains_key(direction_name(base)),
        is_folded(sd[direction_name(base)], sd[magnitude_name(base)], w),
        after.len() == done.len() + 2,
        after.take(done.len() as int) == done,
        after[done.len() as int]@ == magnitude_name(base),
        after[done.len() as int + 1]@ == direction_name(base),
        folded_so_far(sd, entries, n, out, done),
    ensures
        folded_so_far(sd, entries, n + 1, out.insert(weight_name(base), w), after),
{
    let grown = out.insert(weight_name(base), w);
    assert forall|b: Seq<char>| seen(entries, n + 1, #[trigger] magnitude_name(b)) <==> seen(
        entries,
        n,
        magnitude_name(b),
    ) || b == base by {
        lemma_seen_step(entries, n, magnitude_name(b));
        if magnitude_name(b) == magnitude_name(base) {
            lemma_same_base(b, base, "weight_g"@);
        }
    }
    assert forall|b: Seq<char>| weight_name(b) == weight_name(base) implies b == base by {
        lemma_same_base(b, base, "weight"@);
    }
    assert forall|b: Seq<char>| #[trigger] grown.contains_key(weight_name(b)) <==> seen(
        entries,
        n + 1,
        magnitude_name(b),
    ) by {
        assert(out.contains_key(weight_name(b)) <==> seen(entries, n, magnitude_name(b)));
    }
    assert forall|name: Seq<char>| #[trigger] lists(after, name) <==> lists(done, name) || name == magnitude_name(base)
        || name == direction_name(base) by {
        if lists(after, name) {
            let k = choose|k: int| 0 <= k < after.len() && (#[trigger] after[k])@ == name;
            if k < done.len() {
                assert(after.take(done.len() as int)[k] == after[k]);
                assert(done[k]@ == name);
            }
        }
        if lists(done, name) {
            let k = choose|k: int| 0 <= k < done.len() && (#[trigger] done[k])@ == name;
            assert(after.take(done.len() as int)[k] == after[k]);
            assert(after[k]@ == name);
        }
        if name == magnitude_name(base) {
            assert(after[done.len() as int]@ == name);
        }
        if name == direction_name(base) {
            assert(after[done.len() as int + 1]@ == name);
        }
    }
    assert forall|name: Seq<char>| #[trigger] lists(after, name) <==> exists|b: Seq<char>|
        seen(entries, n + 1, #[trigger] magnitude_name(b)) && (name == magnitude_name(b) || name == direction_name(
            b,
        )) by {
        if name == magnitude_name(base) || name == direction_name(base) {
            assert(seen(entries, n + 1, magnitude_name(base)));
        }
        if lists(done, name) {
            let b = choose|b: Seq<char>|
                seen(entries, n, #[trigger] magnitude_name(b)) && (name == magnitude_name(b) || name
                    == direction_name(b));
            assert(seen(entries, n + 1, magnitude_name(b)));
        }
        if exists|b: Seq<char>|
            seen(entries, n + 1, #[trigger] magnitude_name(b)) && (name == magnitude_name(b) || name
                == direction_name(b)) {
            let b = choose|b: Seq<char>|
                seen(entries, n + 1, #[trigger] magnitude_name(b)) && (name == magnitude_name(b) || name
                    == direction_name(b));
            if b != base {
                assert(seen(entries, n, magnitude_name(b)));
                assert(lists(done, name));
            }
        }
    }
    assert forall|name: Seq<char>| #[trigger] grown.contains_key(name) implies exists|b: Seq<char>|
        name == #[trigger] weight_name(b) by {
        if name != weight_name(base) {
            assert(out.contains_key(name));
        }
    }
}

/// Puts the tensors of `sd` that are not listed in `done` into `out`.
fn keep_others(sd: &StateDict, out: StateDict, done: &Vec<String>) -> (r: StateDict)
    ensures
        forall|name: Seq<char>| #[trigger]
            r@.contains_key(name) <==> out@.contains_key(name) || (sd@.contains_key(name) && !lists(done@, name)),
        forall|name: Seq<char>| #[trigger]
            r@.contains_key(name) ==> r@[name] == (if sd@.contains_key(name) && !lists(done@, name) {
                sd@[name]
            } else {
                out@[name]
            }),
{
    let entries = sd.entries();
    let n = entries.len();
    let ghost given = out@;
    proof {
        lemma_names(entries@);
        lemma_values(entries@);
    }
    let mut out = out;
    let mut i: usize = 0;
    while i < n
        invariant
            n == entries@.len(),
            forall|k: int| 0 <= k < n ==> sd@.contains_key((#[trigger] entries@[k]).0@),
            forall|k: int| 0 <= k < n ==> sd@[(#[trigger] entries@[k]).0@] == entries@[k].1,
            i <= n,
            forall|name: Seq<char>| #[trigger]
                out@.contains_key(name) <==> given.contains_key(name) || (seen(entries@, i as int, name) && !lists(
                    done@,
                    name,
                )),
            forall|name: Seq<char>| #[trigger]
                out@.contains_key(name) ==> out@[name] == (if seen(entries@, i as int, name) && !lists(done@, name) {
                    sd@[name]
                } else {
                    given[name]
                }),
        decreases n - i,
    {
        let k = &entries[i].0;
        let listed = is_listed(done, k);
        assert forall|name: Seq<char>| #[trigger] seen(entries@, i + 1, name) <==> seen(entries@, i as int, name)
            || entries@[i as int].0@ == name by {
            lemma_seen_step(entries@, i as int, name);
        }
        if !listed {
            out.insert(k.clone(), entries[i].1.clone());
        }
        i += 1;
    }
    assert forall|name: Seq<char>| #[trigger] sd@.contains_key(name) <==> seen(entries@, n as int, name) by {
        if sd@.contains_key(name) {
            let j = choose|j: int| 0 <= j < entries@.len() && (#[trigger] entries@[j]).0@ == name;
            assert(entries@[j].0@ == name);
        }
    }
    assert forall|name: Seq<char>| #[trigger] out@.contains_key(name) <==> given.contains_key(name) || (
    sd@.contains_key(name) && !lists(done@, name)) by {
        assert(sd@.contains_key(name) <==> seen(entries@, n as int, name));
    }
    out
}

/// Whether candle can compute with every direction that has a magnitude, and with that magnitude.
pub open spec fn are_pairs(sd: Map<Seq<char>, Tensor>) -> bool {
    forall|base: Seq<char>|
        sd.contains_key(#[trigger] magnitude_name(base)) && sd.contains_key(direction_name(base)) ==> is_pair(
            sd[direction_name(base)],
            sd[magnitude_name(base)],
        )
}

/// Whether every magnitude that has a direction can be folded with it.
pub open spec fn pairs_fold(sd: Map<Seq<char>, Tensor>) -> bool {
    forall|base: Seq<char>|
        sd.contains_key(#[trigger] magnitude_name(base)) && sd.contains_key(direction_name(base)) ==> folds(
            sd[direction_name(base)],
            sd[magnitude_name(base)],
        )
}

/// Whether some magnitude has no direction.
pub open spec fn lacks_a_direction(sd: Map<Seq<char>, Tensor>) -> bool {
    exists|base: Seq<char>| sd.contains_key(#[trigger] magnitude_name(base)) && !sd.contains_key(direction_name(base))
}

/// Folds magnitudes `weight_g` and directions `weight_v` into plain weights. Tensors in no such pair
/// are handed through, whatever they hold.
pub fn fold_weight_norm(sd: StateDict) -> (r: Result<StateDict, CheckpointError>)
    requires
        are_pairs(sd@),
    ensures
        r matches Ok(out) ==> is_weight_norm_fold(sd@, out@),
        r matches Err(e) ==> is_fold_error(sd@, e),
        lacks_a_direction(sd@) ==> r is Err,
        pairs_fold(sd@) ==> (r is Err <==> lacks_a_direction(sd@)),
{
    let entries = sd.entries();
    let n = entries.len();
    proof {
        lemma_names(entries@);
        lemma_values(entries@);
    }
    let mut out = StateDict::new();
    let mut done: Vec<String> = Vec::new();
    let mut i: usize = 0;
    while i < n
        invariant
            n == entries@.len(),
            distinct(entries@),
            tensors_of(entries@) == sd@,
            forall|k: int| 0 <= k < n ==> sd@.contains_key((#[trigger] entries@[k]).0@),
            forall|k: int| 0 <= k < n ==> sd@[(#[trigger] entries@[k]).0@] == entries@[k].1,
            are_pairs(sd@),
            i <= n,
            folded_so_far(sd@, entries@, i as int, out@, done@),
        decreases n - i,
    {
        let k = &entries[i].0;
        match strip_suffix(k.as_str(), "weight_g") {
            None => {
                proof {
                    lemma_not_a_magnitude(sd@, entries@, i as int, out@, done@);
                }
            },
            Some(base) => {
                let direction = joined(&base, "weight_v");
                assert(k@ == magnitude_name(base@));
                let v = match sd.get(direction.as_str()) {
                    Some(v) => v,
                    None => {
                        return Err(CheckpointError::MissingDirection(k.clone()));
                    },
                };
                let w = match fold(v, &entries[i].1) {
                    Ok(w) => w,
                    Err(e) => {
                        return Err(CheckpointError::Backend(e));
                    },
                };
                let ghost (out0, done0) = (out@, done@);
                out.insert(joined(&base, "weight"), w);
                done.push(k.clone());
                done.push(direction);
                proof {
                    assert(done@.take(done0.len() as int) == done0);
                    lemma_one_more_magnitude(sd@, entries@, i as int, out0, done0, base@, w, done@);
                }
            },
        }
        i += 1;
    }
    let ghost partial = out@;
    let kept = keep_others(&sd, out, &done);
    proof {
        assert forall|name: Seq<char>| #[trigger] sd@.contains_key(name) <==> seen(entries@, n as int, name) by {
            if sd@.contains_key(name) {
                let j = choose|j: int| 0 <= j < entries@.len() && (#[trigger] entries@[j]).0@ == name;
                assert(entries@[j].0@ == name);
            }
        }
        assert forall|name: Seq<char>| #[trigger] is_folded_in(sd@, name) <==> lists(done@, name) by {
            if is_folded_in(sd@, name) {
                let base = choose|base: Seq<char>|
                    sd@.contains_key(#[trigger] magnitude_name(base)) && (name == magnitude_name(base) || name
                        == direction_name(base));
                assert(seen(entries@, n as int, magnitude_name(base)));
            }
        }
        assert forall|name: Seq<char>| #[trigger] kept@.contains_key(name) <==> stays(sd@, name) || exists|
            base: Seq<char>,
        |
            sd@.contains_key(#[trigger] magnitude_name(base)) && name == weight_name(base) by {
            if partial.contains_key(name) {
                let base = choose|base: Seq<char>| name == #[trigger] weight_name(base);
                assert(sd@.contains_key(magnitude_name(base)));
            }
            if exists|base: Seq<char>| sd@.contains_key(#[trigger] magnitude_name(base)) && name == weight_name(base) {
                let base = choose|base: Seq<char>|
                    sd@.contains_key(#[trigger] magnitude_name(base)) && name == weight_name(base);
                assert(partial.contains_key(weight_name(base)));
            }
        }
        assert forall|name: Seq<char>| #[trigger] stays(sd@, name) implies kept@[name] == sd@[name] by {
            assert(kept@.contains_key(name));
            assert(is_folded_in(sd@, name) <==> lists(done@, name));
        }
        assert forall|base: Seq<char>| sd@.contains_key(#[trigger] magnitude_name(base)) implies sd@.contains_key(
            direction_name(base),
        ) && (stays(sd@, weight_name(base)) || is_folded(
            sd@[direction_name(base)],
            sd@[magnitude_name(base)],
            kept@[weight_name(base)],
        )) by {
            assert(seen(entries@, n as int, magnitude_name(base)));
            assert(kept@.contains_key(weight_name(base)));
        }
    }
    Ok(kept)
}

/// Folding leaves no magnitude.
pub proof fn law_folding_leaves_no_magnitude(
    sd: Map<Seq<char>, Tensor>,
    out: Map<Seq<char>, Tensor>,
    base: Seq<char>,
)
    requires
        is_weight_norm_fold(sd, out),
    ensures
        !out.contains_key(magnitude_name(base)),
{
    let name = magnitude_name(base);
    if out.contains_key(name) {
        if stays(sd, name) {
            assert(sd.contains_key(magnitude_name(base)));
            assert(is_folded_in(sd, name));
        } else {
            let other = choose|b: Seq<char>| sd.contains_key(#[trigger] magnitude_name(b)) && name == weight_name(b);
            reveal_strlit("weight_g");
            reveal_strlit("weight");
            assert(magnitude_name(base).last() == 'g');
            assert(weight_name(other).last() == 't');
        }
    }
}

/// What is folded is not changed by folding it again.
pub proof fn law_folding_twice_is_folding_once(
    sd: Map<Seq<char>, Tensor>,
    once: Map<Seq<char>, Tensor>,
    twice: Map<Seq<char>, Tensor>,
)
    requires
        is_weight_norm_fold(sd, once),
        is_weight_norm_fold(once, twice),
    ensures
        twice == once,
{
    assert forall|base: Seq<char>| !once.contains_key(#[trigger] magnitude_name(base)) by {
        law_folding_leaves_no_magnitude(sd, once, base);
    }
    assert forall|name: Seq<char>| #[trigger] twice.contains_key(name) <==> once.contains_key(name) by {
        assert(stays(once, name) <==> once.contains_key(name));
    }
    assert forall|name: Seq<char>| #[trigger] twice.contains_key(name) implies twice[name] == once[name] by {
        assert(stays(once, name));
    }
    assert(twice =~= once);
}

/// What is folded can be folded again.
pub proof fn law_folded_can_be_folded_again(sd: Map<Seq<char>, Tensor>, once: Map<Seq<char>, Tensor>)
    requires
        is_weight_norm_fold(sd, once),
    ensures
        are_pairs(once),
        pairs_fold(once),
        !lacks_a_direction(once),
{
    assert forall|base: Seq<char>| !once.contains_key(#[trigger] magnitude_name(base)) by {
        law_folding_leaves_no_magnitude(sd, once, base);
    }
}

/// A map without magnitudes is not changed by folding.
pub proof fn law_folding_without_magnitudes_changes_nothing(sd: Map<Seq<char>, Tensor>, out: Map<Seq<char>, Tensor>)
    requires
        is_weight_norm_fold(sd, out),
        forall|base: Seq<char>| !sd.contains_key(#[trigger] magnitude_name(base)),
    ensures
        out == sd,
{
    assert forall|name: Seq<char>| #[trigger] out.contains_key(name) <==> sd.contains_key(name) by {
        assert(stays(sd, name) <==> sd.contains_key(name));
    }
    assert forall|name: Seq<char>| #[trigger] out.contains_key(name) implies out[name] == sd[name] by {
        assert(stays(sd, name));
    }
    assert(out =~= sd);
}

/// The weights whose magnitude is in `sd`, by what stands before `weight` in their names.
pub open spec fn normalised(sd: Map<Seq<char>, Tensor>) -> Set<Seq<char>> {
    Set::new(|base: Seq<char>| sd.contains_key(magnitude_name(base)))
}

/// The names with one ending are as many as what stands before it.
proof fn lemma_as_many_names(bases: Set<Seq<char>>, ending: Seq<char>)
    requires
        bases.finite(),
    ensures
        bases.map(|base: Seq<char>| base + ending).finite(),
        bases.map(|base: Seq<char>| base + ending).len() == bases.len(),
{
    let f = |base: Seq<char>| base + ending;
    assert forall|a: Seq<char>, b: Seq<char>|
        bases.contains(a) && bases.contains(b) && #[trigger] f(a) == #[trigger] f(b) implies a == b by {
        lemma_same_base(a, b, ending);
    }
    lemma_map_size(bases, bases.map(f), f);
}

/// What stands before the ending of finitely many names is finitely many.
proof fn lemma_finitely_many(sd: Map<Seq<char>, Tensor>)
    requires
        sd.dom().finite(),
    ensures
        normalised(sd).finite(),
{
    let n = "weight_g"@.len() as int;
    let cut = |name: Seq<char>| name.take(name.len() - n);
    sd.dom().lemma_map_finite(cut);
    assert forall|base: Seq<char>| #[trigger] normalised(sd).contains(base) implies sd.dom().map(cut).contains(
        base,
    ) by {
        let name = magnitude_name(base);
        assert(name.take(name.len() - n) == base);
        assert(sd.dom().contains(name) && cut(name) == base);
    }
    vstd::set_lib::lemma_set_subset_finite(sd.dom().map(cut), normalised(sd));
}

/// Folding makes one tensor of every pair: where no weight is there beside its magnitude, what is
/// left is the tensors in no pair and the weights, one tensor fewer for every magnitude.
pub proof fn law_folding_makes_one_of_every_pair(sd: Map<Seq<char>, Tensor>, out: Map<Seq<char>, Tensor>)
    requires
        is_weight_norm_fold(sd, out),
        sd.dom().finite(),
        forall|base: Seq<char>|
            #[trigger] sd.contains_key(magnitude_name(base)) ==> !sd.contains_key(weight_name(base)),
    ensures
        out.dom() == sd.dom().filter(|name: Seq<char>| !is_folded_in(sd, name)) + normalised(sd).map(
            |base: Seq<char>| weight_name(base),
        ),
        out.dom().finite(),
        normalised(sd).finite(),
        out.dom().len() + normalised(sd).len() == sd.dom().len(),
{
    let bases = normalised(sd);
    let kept = sd.dom().filter(|name: Seq<char>| !is_folded_in(sd, name));
    let magnitudes = bases.map(|base: Seq<char>| base + "weight_g"@);
    let directions = bases.map(|base: Seq<char>| base + "weight_v"@);
    let weights = bases.map(|base: Seq<char>| base + "weight"@);
    lemma_finitely_many(sd);
    lemma_as_many_names(bases, "weight_g"@);
    lemma_as_many_names(bases, "weight_v"@);
    lemma_as_many_names(bases, "weight"@);
    sd.dom().lemma_len_filter(|name: Seq<char>| !is_folded_in(sd, name));
    assert(weights =~= bases.map(|base: Seq<char>| weight_name(base)));
    assert forall|name: Seq<char>| #[trigger] out.dom().contains(name) <==> (kept + weights).contains(name) by {
        assert(out.contains_key(name) <==> stays(sd, name) || exists|base: Seq<char>|
            sd.contains_key(#[trigger] magnitude_name(base)) && name == weight_name(base));
        if weights.contains(name) {
            let base = choose|base: Seq<char>| bases.contains(base) && name == #[trigger] (base + "weight"@);
            assert(sd.contains_key(magnitude_name(base)) && name == weight_name(base));
        }
        if exists|base: Seq<char>| sd.contains_key(#[trigger] magnitude_name(base)) && name == weight_name(base) {
            let base = choose|base: Seq<char>|
                sd.contains_key(#[trigger] magnitude_name(base)) && name == weight_name(base);
            assert(bases.contains(base));
        }
    }
    assert(out.dom() =~= kept + weights);
    assert forall|name: Seq<char>| #[trigger] sd.dom().contains(name) <==> (kept + (magnitudes + directions)).contains(
        name,
    ) by {
        if magnitudes.contains(name) {
            let base = choose|base: Seq<char>| bases.contains(base) && name == #[trigger] (base + "weight_g"@);
            assert(name == magnitude_name(base));
        }
        if directions.contains(name) {
            let base = choose|base: Seq<char>| bases.contains(base) && name == #[trigger] (base + "weight_v"@);
            assert(sd.contains_key(magnitude_name(base)) && name == direction_name(base));
        }
        if is_folded_in(sd, name) {
            let base = choose|base: Seq<char>|
                sd.contains_key(#[trigger] magnitude_name(base)) && (name == magnitude_name(base) || name
                    == direction_name(base));
            assert(bases.contains(base));
        }
    }
    assert(sd.dom() =~= kept + (magnitudes + directions));
    assert(magnitudes.disjoint(directions)) by {
        assert forall|name: Seq<char>| !(magnitudes.contains(name) && #[trigger] directions.contains(name)) by {
            if magnitudes.contains(name) && directions.contains(name) {
                let a = choose|base: Seq<char>| bases.contains(base) && name == #[trigger] (base + "weight_g"@);
                let b = choose|base: Seq<char>| bases.contains(base) && name == #[trigger] (base + "weight_v"@);
                reveal_strlit("weight_g");
                reveal_strlit("weight_v");
                assert(name.last() == 'g' && name.last() == 'v');
            }
        }
    }
    assert(kept.disjoint(magnitudes + directions)) by {
        assert forall|name: Seq<char>|
            !(kept.contains(name) && #[trigger] (magnitudes + directions).contains(name)) by {
            if magnitudes.contains(name) {
                let base = choose|base: Seq<char>| bases.contains(base) && name == #[trigger] (base + "weight_g"@);
                assert(sd.contains_key(magnitude_name(base)) && name == magnitude_name(base));
            }
            if directions.contains(name) {
                let base = choose|base: Seq<char>| bases.contains(base) && name == #[trigger] (base + "weight_v"@);
                assert(sd.contains_key(magnitude_name(base)) && name == direction_name(base));
            }
        }
    }
    assert(kept.disjoint(weights)) by {
        assert forall|name: Seq<char>| !(kept.contains(name) && #[trigger] weights.contains(name)) by {
            if weights.contains(name) {
                let base = choose|base: Seq<char>| bases.contains(base) && name == #[trigger] (base + "weight"@);
                assert(sd.contains_key(magnitude_name(base)) && name == weight_name(base));
            }
        }
    }
    lemma_set_disjoint_lens(magnitudes, directions);
    lemma_set_disjoint_lens(kept, magnitudes + directions);
    lemma_set_disjoint_lens(kept, weights);
}

/// A magnitude of one value per row gives the weight the shape of the direction.
pub proof fn law_folding_keeps_the_shape(v: Tensor, g: Tensor, w: Tensor)
    requires
        is_folded(v, g, w),
        shape(g) == row_shape(shape(v)),
    ensures
        shape(w) == shape(v),
{
    let rows = row_shape(shape(v));
    assert(broadcast_shape(rows, rows) == rows);
    assert(broadcast_shape(shape(v), rows) == shape(v));
}

} // verus!
