//! Laws on names: which tensor a name stands for, and what is taken of a checkpoint.

use crate::checkpoint::{
    are_convertible, direction_name, is_folded_in, is_weight_norm_fold, magnitude_name, row_sums, stays, taken,
    taken_name, tensors_of, weight_name,
};
use crate::fetch::{are_generator_tensors, is_part, lacks_tensors, Part};
use crate::graph::{BinaryOp, Graph, UnaryOp};
use crate::layers::{root, Scope};
use crate::tensor::{graph, is_single, shape};
use crate::text::{decimal, digit};
use candle_core::{Device, Tensor};
use vstd::prelude::*;

verus! {

/// The number that decimal digits stand for.
pub open spec fn number(s: Seq<char>) -> int
    decreases s.len(),
{
    if s.len() == 0 {
        0
    } else {
        10 * number(s.drop_last()) + (s.last() as int - '0' as int)
    }
}

/// Numbers in decimal are read back as they were, are made of digits, and start with a zero only where
/// they are zero.
pub proof fn law_decimal_is_read_back(n: nat)
    ensures
        number(decimal(n)) == n,
        decimal(n).len() >= 1,
        forall|i: int| 0 <= i < decimal(n).len() ==> '0' <= #[trigger] decimal(n)[i] <= '9',
        n > 0 ==> decimal(n)[0] != '0',
        n == 0 ==> decimal(n).len() == 1,
    decreases n,
{
    reveal_with_fuel(number, 2);
    if n >= 10 {
        law_decimal_is_read_back(n / 10);
        let (front, last) = (decimal(n / 10), digit(n % 10));
        assert(decimal(n) == front + seq![last]);
        assert(decimal(n).drop_last() =~= front);
        assert(decimal(n).last() == last);
        assert forall|i: int| 0 <= i < decimal(n).len() implies '0' <= #[trigger] decimal(n)[i] <= '9' by {
            if i < front.len() {
                assert(decimal(n)[i] == front[i]);
            }
        }
        assert(decimal(n)[0] == front[0]);
    } else {
        assert(decimal(n).drop_last() =~= Seq::<char>::empty());
        assert(decimal(n).last() == digit(n));
    }
}

/// The last of the tensors with a name, if there is one.
pub open spec fn is_last_named(entries: Seq<(String, Tensor)>, name: Seq<char>, i: int) -> bool {
    &&& 0 <= i < entries.len()
    &&& entries[i].0@ == name
    &&& forall|j: int| i < j < entries.len() ==> (#[trigger] entries[j]).0@ != name
}

/// Whether some tensor has a name.
pub open spec fn is_named(entries: Seq<(String, Tensor)>, name: Seq<char>) -> bool {
    exists|i: int| #[trigger] is_last_named(entries, name, i)
}

/// What the last entry does to the names.
proof fn lemma_last_named(entries: Seq<(String, Tensor)>, name: Seq<char>)
    requires
        entries.len() > 0,
    ensures
        entries.last().0@ == name ==> is_last_named(entries, name, entries.len() - 1),
        entries.last().0@ != name ==> (is_named(entries, name) <==> is_named(entries.drop_last(), name)),
        forall|i: int| #[trigger]
            is_last_named(entries, name, i) ==> i == entries.len() - 1 && entries.last().0@ == name || is_last_named(
                entries.drop_last(),
                name,
                i,
            ) && entries.last().0@ != name,
{
    let front = entries.drop_last();
    let n = entries.len() - 1;
    if entries.last().0@ != name {
        assert forall|i: int| #[trigger] is_last_named(entries, name, i) implies is_last_named(front, name, i) by {
            assert(i != n);
            assert forall|j: int| i < j < front.len() implies (#[trigger] front[j]).0@ != name by {
                assert(entries[j].0@ != name);
            }
        }
        assert forall|i: int| #[trigger] is_last_named(front, name, i) implies is_last_named(entries, name, i) by {
            assert forall|j: int| i < j < entries.len() implies (#[trigger] entries[j]).0@ != name by {
                if j < n {
                    assert(front[j].0@ != name);
                }
            }
        }
    } else {
        assert forall|i: int| #[trigger] is_last_named(entries, name, i) implies i == n by {
            if i < n {
                assert(entries[n].0@ != name);
            }
        }
    }
}

/// A list of tensors gives a name the last tensor that has it.
pub proof fn law_last_tensor_of_a_name_counts(entries: Seq<(String, Tensor)>, name: Seq<char>)
    ensures
        tensors_of(entries).contains_key(name) <==> is_named(entries, name),
        forall|i: int| #[trigger] is_last_named(entries, name, i) ==> tensors_of(entries)[name] == entries[i].1,
    decreases entries.len(),
{
    if entries.len() > 0 {
        law_last_tensor_of_a_name_counts(entries.drop_last(), name);
        lemma_last_named(entries, name);
    }
}

/// A parameter is the last tensor of its name, in single precision, with the shape of that tensor.
pub proof fn law_parameters_are_the_tensors(tensors: Seq<(String, Tensor)>, device: Device, name: Seq<char>)
    ensures
        root(tensors, device).prefix == Seq::<char>::empty(),
        root(tensors, device).parameters.contains_key(name) <==> is_named(tensors, name),
        root(tensors, device).extents.contains_key(name) <==> is_named(tensors, name),
        forall|i: int| #[trigger]
            is_last_named(tensors, name, i) ==> root(tensors, device).parameters[name] == Graph::Single(
                Box::new(graph(tensors[i].1)),
            ) && root(tensors, device).extents[name] == shape(tensors[i].1),
    decreases tensors.len(),
{
    if tensors.len() > 0 {
        law_parameters_are_the_tensors(tensors.drop_last(), device, name);
        lemma_last_named(tensors, name);
    }
}

/// The name under which a tensor stands in a checkpoint that is taken under `name`.
pub open spec fn full_name(name: Seq<char>, prefix: Option<Seq<char>>, strip: bool) -> Seq<char> {
    match prefix {
        Some(p) => if strip { p + name } else { name },
        None => name,
    }
}

/// Whether a name can be that of a tensor which is taken.
pub open spec fn can_be_taken(name: Seq<char>, prefix: Option<Seq<char>>, strip: bool) -> bool {
    prefix matches Some(p) ==> !strip ==> name.len() >= p.len() && name.take(p.len() as int) == p
}

/// A name that is taken.
proof fn lemma_taken_name(given: Seq<char>, name: Seq<char>, prefix: Option<Seq<char>>, strip: bool)
    ensures
        taken_name(given, prefix, strip) == Some(name) <==> given == full_name(name, prefix, strip) && can_be_taken(
            name,
            prefix,
            strip,
        ),
{
    match prefix {
        Some(p) => {
            if p.is_prefix_of(given) {
                assert(given =~= p + given.skip(p.len() as int));
                assert(given.take(p.len() as int) =~= p);
            }
            if given == p + name {
                assert(given.skip(p.len() as int) =~= name);
                assert(p.is_prefix_of(given)) by {
                    assert(given.subrange(0, p.len() as int) =~= p);
                }
            }
            if given.len() >= p.len() && given.take(p.len() as int) == p {
                assert(given.subrange(0, p.len() as int) =~= p);
            }
        },
        None => {},
    }
}

/// What is taken of a checkpoint.
proof fn lemma_taken(all: Seq<(String, Tensor)>, prefix: Option<Seq<char>>, strip: bool, name: Seq<char>)
    ensures
        taken(all, prefix, strip).contains_key(name) <==> can_be_taken(name, prefix, strip) && is_named(
            all,
            full_name(name, prefix, strip),
        ),
        forall|i: int| #[trigger]
            is_last_named(all, full_name(name, prefix, strip), i) && can_be_taken(name, prefix, strip) ==> taken(
                all,
                prefix,
                strip,
            )[name] == all[i].1,
    decreases all.len(),
{
    if all.len() > 0 {
        lemma_taken(all.drop_last(), prefix, strip, name);
        lemma_last_named(all, full_name(name, prefix, strip));
        lemma_taken_name(all.last().0@, name, prefix, strip);
    }
}

/// Whether `d` holds under `name` the tensor that a checkpoint has under `full`, in single precision, and
/// holds nothing there where the checkpoint has none.
pub open spec fn holds_as(
    all: Seq<(String, Tensor)>,
    full: Seq<char>,
    d: Map<Seq<char>, Tensor>,
    name: Seq<char>,
) -> bool {
    &&& d.contains_key(name) <==> is_named(all, full)
    &&& forall|i: int| #[trigger]
        is_last_named(all, full, i) ==> {
            &&& graph(d[name]) == Graph::Single(Box::new(graph(all[i].1)))
            &&& shape(d[name]) == shape(all[i].1)
            &&& is_single(d[name])
        }
}

/// A part of a checkpoint holds all tensors under its prefix, the last of every name, and no others: under
/// their names without the prefix, or for a subset under their own.
pub proof fn law_part_holds_all_tensors_under_its_prefix(
    part: Part,
    all: Seq<(String, Tensor)>,
    d: Map<Seq<char>, Tensor>,
    name: Seq<char>,
)
    requires
        is_part(part, all, d),
    ensures
        part matches Part::Under(prefix) ==> holds_as(all, prefix@ + name, d, name),
        part is All ==> holds_as(all, name, d, name),
        part matches Part::Subset(prefix) ==> holds_as(all, prefix@ + name, d, prefix@ + name),
        part matches Part::Subset(prefix) ==> d.contains_key(name) ==> name.len() >= prefix@.len() && name.take(
            prefix@.len() as int,
        ) == prefix@,
{
    match part {
        Part::Under(prefix) => {
            lemma_taken(all, Some(prefix@), true, name);
            let from = taken(all, Some(prefix@), true);
            assert(d.contains_key(name) <==> from.contains_key(name));
        },
        Part::All => {
            lemma_taken(all, None, true, name);
            let from = taken(all, None, true);
            assert(d.contains_key(name) <==> from.contains_key(name));
        },
        Part::Subset(prefix) => {
            let full = prefix@ + name;
            assert(full.take(prefix@.len() as int) =~= prefix@);
            lemma_taken(all, Some(prefix@), false, full);
            lemma_taken(all, Some(prefix@), false, name);
            let from = taken(all, Some(prefix@), false);
            assert(d.contains_key(full) <==> from.contains_key(full));
            assert(d.contains_key(name) <==> from.contains_key(name));
        },
        Part::Generator => {},
    }
}

/// The vocoder's tensors are those under `generator.`, where there are any that can be converted, else
/// all, with their weight norms folded.
pub proof fn law_vocoder_is_folded_from_its_own_tensors(all: Seq<(String, Tensor)>, d: Map<Seq<char>, Tensor>)
    requires
        is_part(Part::Generator, all, d),
    ensures
        exists|given: Map<Seq<char>, Tensor>| #[trigger]
            is_weight_norm_fold(given, d) && (is_part(Part::Under("generator."), all, given) || is_part(
                Part::All,
                all,
                given,
            )),
        (forall|name: Seq<char>| !is_named(all, #[trigger] ("generator."@ + name))) ==> exists|
            given: Map<Seq<char>, Tensor>,
        | #[trigger] is_weight_norm_fold(given, d) && is_part(Part::All, all, given),
        (exists|name: Seq<char>| is_named(all, #[trigger] ("generator."@ + name)))
            && are_convertible(all, Some("generator."@), true) ==> exists|
            given: Map<Seq<char>, Tensor>,
        | #[trigger] is_weight_norm_fold(given, d) && is_part(Part::Under("generator."), all, given),
{
    let given = choose|given: Map<Seq<char>, Tensor>| #[trigger]
        are_generator_tensors(all, given) && is_weight_norm_fold(given, d);
    assert(is_weight_norm_fold(given, d));
    let own = taken(all, Some("generator."@), true);
    let none = Map::<Seq<char>, Tensor>::empty();
    if forall|name: Seq<char>| !is_named(all, #[trigger] ("generator."@ + name)) {
        assert forall|name: Seq<char>| !own.contains_key(name) by {
            lemma_taken(all, Some("generator."@), true, name);
            assert(!is_named(all, "generator."@ + name));
        }
        assert(own =~= none);
    }
    if exists|name: Seq<char>| is_named(all, #[trigger] ("generator."@ + name)) {
        let name = choose|name: Seq<char>| is_named(all, #[trigger] ("generator."@ + name));
        lemma_taken(all, Some("generator."@), true, name);
        assert(own.contains_key(name));
    }
}

/// Names with other endings are no weight norms.
proof fn lemma_endings(base: Seq<char>, name: Seq<char>)
    ensures
        magnitude_name(base) != weight_name(name),
        direction_name(base) != weight_name(name),
        magnitude_name(base) != direction_name(name),
{
    reveal_strlit("weight_g");
    reveal_strlit("weight_v");
    reveal_strlit("weight");
    let (g, v, w) = (magnitude_name(base), direction_name(base), weight_name(name));
    assert(g.last() == 'g' && v.last() == 'v' && w.last() == 't');
    assert(direction_name(name).last() == 'v');
}

/// Folding, name by name: where there is a magnitude there is a direction, and the two give way to the
/// weight, the direction times the magnitude over its norm. All other tensors stay as they are, and there
/// are no others.
pub proof fn law_folding_by_names(
    sd: Map<Seq<char>, Tensor>,
    out: Map<Seq<char>, Tensor>,
    base: Seq<char>,
    name: Seq<char>,
)
    requires
        is_weight_norm_fold(sd, out),
    ensures
        sd.contains_key(base + "weight_g"@) ==> {
            let (v, g) = (graph(sd[base + "weight_v"@]), graph(sd[base + "weight_g"@]));
            let n = shape(sd[base + "weight_v"@]).len();
            let squares = row_sums(Graph::Unary(UnaryOp::Sqr, Box::new(v)), n);
            let norm = Graph::Unary(UnaryOp::Sqrt, Box::new(squares));
            let factor = Graph::Binary(BinaryOp::Quotient, Box::new(g), Box::new(norm));
            &&& sd.contains_key(base + "weight_v"@)
            &&& !out.contains_key(base + "weight_g"@)
            &&& !out.contains_key(base + "weight_v"@)
            &&& out.contains_key(base + "weight"@)
            &&& sd.contains_key(base + "weight"@) ==> out[base + "weight"@] == sd[base + "weight"@]
            &&& !sd.contains_key(base + "weight"@) ==> graph(out[base + "weight"@]) == Graph::Binary(
                BinaryOp::Product,
                Box::new(v),
                Box::new(factor),
            )
        },
        sd.contains_key(name) && (forall|b: Seq<char>|
            sd.contains_key(#[trigger] magnitude_name(b)) ==> name != b + "weight_g"@ && name != b + "weight_v"@) ==> (
        out.contains_key(name) && out[name] == sd[name]),
        out.contains_key(name) ==> sd.contains_key(name) || exists|b: Seq<char>|
            sd.contains_key(#[trigger] magnitude_name(b)) && name == b + "weight"@,
{
    let (g, v, w) = (magnitude_name(base), direction_name(base), weight_name(base));
    if sd.contains_key(g) {
        lemma_endings(base, base);
        assert(is_folded_in(sd, g) && is_folded_in(sd, v));
        assert(!stays(sd, g) && !stays(sd, v));
        assert forall|b: Seq<char>| #[trigger] magnitude_name(b) == magnitude_name(b) implies g != weight_name(b) && v
            != weight_name(b) && w != magnitude_name(b) && w != direction_name(b) by {
            lemma_endings(base, b);
            lemma_endings(b, base);
        }
        assert(!out.contains_key(g) && !out.contains_key(v)) by {
            if out.contains_key(g) {
                let b = choose|b: Seq<char>| sd.contains_key(#[trigger] magnitude_name(b)) && g == weight_name(b);
                lemma_endings(base, b);
            }
            if out.contains_key(v) {
                let b = choose|b: Seq<char>| sd.contains_key(#[trigger] magnitude_name(b)) && v == weight_name(b);
                lemma_endings(base, b);
            }
        }
        assert(!is_folded_in(sd, w)) by {
            if is_folded_in(sd, w) {
                let b = choose|b: Seq<char>|
                    sd.contains_key(#[trigger] magnitude_name(b)) && (w == magnitude_name(b) || w == direction_name(b));
                lemma_endings(b, base);
            }
        }
        assert(out.contains_key(w));
        assert(stays(sd, w) <==> sd.contains_key(w));
    }
    if sd.contains_key(name) && (forall|b: Seq<char>|
        sd.contains_key(#[trigger] magnitude_name(b)) ==> name != b + "weight_g"@ && name != b + "weight_v"@) {
        assert(stays(sd, name));
        assert(out.contains_key(name));
    }
    if out.contains_key(name) && !sd.contains_key(name) {
        assert(!stays(sd, name));
    }
}

/// The squares of a row are added up axis by axis, over all axes but the first.
pub proof fn law_row_sums_are_over_all_axes_but_the_first(x: Graph, n: nat)
    ensures
        row_sums(x, 1) == x,
        n >= 1 ==> row_sums(x, n + 1) == (Graph::SumAxis { x: Box::new(row_sums(x, n)), axis: n as int, keep: true }),
{
    reveal_with_fuel(row_sums, 2);
}

/// Levels of a position and names are joined by dots.
pub proof fn law_levels_are_joined_by_dots(s: Scope, level: Seq<char>, name: Seq<char>, dims: Seq<usize>)
    ensures
        s.at(level).parameters == s.parameters,
        s.at(level).extents == s.extents,
        s.at(level).ready == s.ready,
        s.at(level).prefix == s.prefix + level + seq!['.'],
        s.parameter(name) == s.parameters[s.prefix + name],
        s.holds(name, dims) <==> s.parameters.contains_key(s.prefix + name) && s.extents[s.prefix + name] == dims,
{
}

/// A part finds no tensors where no name starts with its prefix, and all tensors are missed only where there
/// are none; a subset may be empty.
pub proof fn law_tensors_are_missed_where_there_are_none(part: Part, all: Seq<(String, Tensor)>)
    ensures
        part matches Part::Under(prefix) ==> (lacks_tensors(part, all) <==> forall|name: Seq<char>|
            !is_named(all, #[trigger] (prefix@ + name))),
        part is All || part is Generator ==> (lacks_tensors(part, all) <==> all.len() == 0),
        part is Subset ==> !lacks_tensors(part, all),
{
    let none = Map::<Seq<char>, Tensor>::empty();
    match part {
        Part::Under(prefix) => {
            let from = taken(all, Some(prefix@), true);
            assert forall|name: Seq<char>| from.contains_key(name) <==> is_named(all, #[trigger] (prefix@ + name)) by {
                lemma_taken(all, Some(prefix@), true, name);
            }
            if forall|name: Seq<char>| !is_named(all, #[trigger] (prefix@ + name)) {
                assert forall|name: Seq<char>| !from.contains_key(name) by {
                    assert(!is_named(all, prefix@ + name));
                }
                assert(from =~= none);
            }
        },
        Part::Subset(_) => {},
        _ => {
            if all.len() > 0 {
                assert(taken(all, None, true).contains_key(all.last().0@));
            }
        },
    }
}

} // verus!
