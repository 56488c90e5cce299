//! What the checkpoint fetcher does: its command line, where it puts checkpoints, what it downloads
//! and what it makes of it.

use crate::checkpoint::{
    are_convertible, are_pairs, are_readable, can_read, direction_name, fold_weight_norm, is_fold_error,
    is_pair, is_single_copy, is_weight_norm_fold, law_folding_leaves_no_magnitude, magnitude_name, select, stays,
    subset, taken, taken_name, weight_name, CheckpointError, StateDict,
};
use crate::tensor::{is_single, shape, MAX_AXES};
use crate::text::{is_trimmed, law_trimming_is_unique, same, strip_suffix, trim};
use candle_core::Tensor;
use vstd::prelude::*;

verus! {

/// What a command line asks for.
#[derive(Debug)]
pub enum Command {
    /// Print the usage.
    Help,
    /// Fetch the checkpoints of an engine.
    Run {
        /// The engine that was named.
        engine: Option<String>,
        /// The directory that was given.
        ckpt_dir: Option<String>,
        /// Whether questions are answered with yes.
        yes: bool,
    },
}

/// Why a command line is not understood.
#[derive(Debug)]
pub enum ArgError {
    /// `--ckpt-dir` without a directory.
    MissingDir,
    /// An argument that is neither an option nor the first engine.
    Unknown(String),
}

/// What a command line comes to.
pub enum Outcome {
    Help,
    Run { engine: Option<Seq<char>>, ckpt_dir: Option<Seq<char>>, yes: bool },
    MissingDir,
    Unknown(Seq<char>),
}

/// An optional text.
pub open spec fn optional(s: Option<String>) -> Option<Seq<char>> {
    match s {
        Some(t) => Some(t@),
        None => None,
    }
}

/// What a parsed command line comes to.
pub open spec fn outcome(r: Result<Command, ArgError>) -> Outcome {
    match r {
        Ok(Command::Help) => Outcome::Help,
        Ok(Command::Run { engine, ckpt_dir, yes }) => Outcome::Run {
            engine: optional(engine),
            ckpt_dir: optional(ckpt_dir),
            yes,
        },
        Err(ArgError::MissingDir) => Outcome::MissingDir,
        Err(ArgError::Unknown(a)) => Outcome::Unknown(a@),
    }
}

/// What the arguments from `i` on come to, after those before gave an engine, a directory and a
/// yes. The last directory counts, the first argument that is no option is the engine, and
/// `--help` ends the line.
pub open spec fn parsed(
    args: Seq<String>,
    i: nat,
    engine: Option<Seq<char>>,
    ckpt_dir: Option<Seq<char>>,
    yes: bool,
) -> Outcome
    decreases args.len() - i,
{
    if i >= args.len() {
        Outcome::Run { engine, ckpt_dir, yes }
    } else {
        let a = args[i as int]@;
        if a == "--ckpt-dir"@ {
            if i + 1 >= args.len() {
                Outcome::MissingDir
            } else {
                parsed(args, i + 2, engine, Some(args[i as int + 1]@), yes)
            }
        } else if a == "--yes"@ || a == "-y"@ {
            parsed(args, i + 1, engine, ckpt_dir, true)
        } else if a == "--help"@ || a == "-h"@ {
            Outcome::Help
        } else if engine is None && !(a.len() > 0 && a[0] == '-') {
            parsed(args, i + 1, Some(a), ckpt_dir, yes)
        } else {
            Outcome::Unknown(a)
        }
    }
}

/// Whether a text starts with a dash.
fn is_dashed(a: &str) -> (r: bool)
    ensures
        r == (a@.len() > 0 && a@[0] == '-'),
{
    a.unicode_len() > 0 && a.get_char(0) == '-'
}

/// Parses the arguments of the command line, the program's name left out.
pub fn parse_args(args: &Vec<String>) -> (r: Result<Command, ArgError>)
    ensures
        outcome(r) == parsed(args@, 0, None, None, false),
{
    let n = args.len();
    let mut engine: Option<String> = None;
    let mut ckpt_dir: Option<String> = None;
    let mut yes = false;
    let mut i: usize = 0;
    while i < n
        invariant
            n == args@.len(),
            i <= n,
            parsed(args@, i as nat, optional(engine), optional(ckpt_dir), yes) == parsed(args@, 0, None, None, false),
        decreases n - i,
    {
        let a = args[i].as_str();
        if same(a, "--ckpt-dir") {
            if n - i < 2 {
                return Err(ArgError::MissingDir);
            }
            ckpt_dir = Some(args[i + 1].clone());
            i += 2;
        } else if same(a, "--yes") || same(a, "-y") {
            yes = true;
            i += 1;
        } else if same(a, "--help") || same(a, "-h") {
            return Ok(Command::Help);
        } else if engine.is_none() && !is_dashed(a) {
            engine = Some(args[i].clone());
            i += 1;
        } else {
            return Err(ArgError::Unknown(args[i].clone()));
        }
    }
    Ok(Command::Run { engine, ckpt_dir, yes })
}

/// The engine that a command names.
#[derive(Debug)]
pub enum Engine {
    SeedVc,
    /// One that there is no plan for.
    Unknown(String),
    /// None was named.
    Missing,
}

/// The engine that a command names.
pub fn engine_of(name: Option<String>) -> (r: Engine)
    ensures
        match name {
            None => r is Missing,
            Some(n) => if n@ == "seedvc"@ { r is SeedVc } else { r == Engine::Unknown(n) },
        },
{
    match name {
        None => Engine::Missing,
        Some(n) => if same(n.as_str(), "seedvc") {
            Engine::SeedVc
        } else {
            Engine::Unknown(n)
        },
    }
}

/// Whether an answer to a question is a yes: `y`, `Y` or `yes`, whatever white space is around it.
pub open spec fn is_yes(line: Seq<char>) -> bool {
    exists|answer: Seq<char>| #[trigger]
        is_trimmed(line, answer) && (answer == "y"@ || answer == "Y"@ || answer == "yes"@)
}

/// Whether an answer to a question is a yes.
pub fn accepts(line: &str) -> (r: bool)
    ensures
        r == is_yes(line@),
{
    let answer = trim(line);
    let a = answer.as_str();
    let r = same(a, "y") || same(a, "Y") || same(a, "yes");
    proof {
        if is_yes(line@) {
            let other = choose|answer: Seq<char>| #[trigger]
                is_trimmed(line@, answer) && (answer == "y"@ || answer == "Y"@ || answer == "yes"@);
            law_trimming_is_unique(line@, other, answer@);
        }
    }
    r
}

/// Families of operating systems that keep data in different places.
#[derive(Debug, Clone, Copy, PartialEq, Eq, Structural)]
pub enum Platform {
    MacOs,
    Windows,
    Other,
}

/// Environment variables that name a directory for data.
#[derive(Debug, Clone, Copy, PartialEq, Eq, Structural)]
pub enum Variable {
    Home,
    AppData,
    XdgDataHome,
}

/// Where checkpoints are kept: a path below the working directory, or below the directory that a
/// variable names.
#[derive(Debug)]
pub struct CkptDir {
    pub base: Option<Variable>,
    pub parts: Vec<&'static str>,
}

/// Whether a directory is made of the given parts below the given base.
pub open spec fn is_dir(d: CkptDir, base: Option<Variable>, parts: Seq<Seq<char>>) -> bool {
    &&& d.base == base
    &&& d.parts@.len() == parts.len()
    &&& forall|i: int| 0 <= i < parts.len() ==> (#[trigger] d.parts@[i])@ == parts[i]
}

/// Where checkpoints are kept when no directory is given: in `ckpt`, if there is such a directory
/// (`local`), else below the directory for data of the platform. `home`, `app_data` and
/// `xdg_data_home` say which variables are set; without the one that is needed there is no place.
pub fn default_ckpt_dir(local: bool, platform: Platform, home: bool, app_data: bool, xdg_data_home: bool) -> (r: Option<
    CkptDir,
>)
    ensures
        local ==> (r matches Some(d) && is_dir(d, None, seq!["ckpt"@])),
        !local && platform == Platform::MacOs ==> if home {
            r matches Some(d) && is_dir(
                d,
                Some(Variable::Home),
                seq!["Library/Application Support"@, "babiniku/ckpt"@],
            )
        } else {
            r is None
        },
        !local && platform == Platform::Windows ==> if app_data {
            r matches Some(d) && is_dir(d, Some(Variable::AppData), seq!["babiniku/ckpt"@])
        } else {
            r is None
        },
        !local && platform == Platform::Other ==> if xdg_data_home {
            r matches Some(d) && is_dir(d, Some(Variable::XdgDataHome), seq!["babiniku/ckpt"@])
        } else if home {
            r matches Some(d) && is_dir(d, Some(Variable::Home), seq![".local/share"@, "babiniku/ckpt"@])
        } else {
            r is None
        },
{
    if local {
        return Some(CkptDir { base: None, parts: vec!["ckpt"] });
    }
    match platform {
        Platform::MacOs => if home {
            Some(CkptDir { base: Some(Variable::Home), parts: vec!["Library/Application Support", "babiniku/ckpt"] })
        } else {
            None
        },
        Platform::Windows => if app_data {
            Some(CkptDir { base: Some(Variable::AppData), parts: vec!["babiniku/ckpt"] })
        } else {
            None
        },
        Platform::Other => if xdg_data_home {
            Some(CkptDir { base: Some(Variable::XdgDataHome), parts: vec!["babiniku/ckpt"] })
        } else if home {
            Some(CkptDir { base: Some(Variable::Home), parts: vec![".local/share", "babiniku/ckpt"] })
        } else {
            None
        },
    }
}

/// What is taken of a downloaded checkpoint.
#[derive(Debug, Clone, Copy)]
pub enum Part {
    /// The tensors under a prefix, without it in their names.
    Under(&'static str),
    /// All tensors.
    All,
    /// The vocoder: the tensors under `generator.`, else all, with their weight norms folded.
    Generator,
    /// The tensors under a prefix, under their own names.
    Subset(&'static str),
}

/// A checkpoint that is made of a part of a download.
#[derive(Debug, Clone, Copy)]
pub struct Output {
    pub part: Part,
    /// The file's name in the checkpoint directory.
    pub file: &'static str,
}

/// How a published checkpoint is stored.
#[derive(Debug, Clone, Copy, PartialEq, Eq, Structural)]
pub enum Format {
    Pickle,
    Safetensors,
}

/// A file to download, and what is made of it.
#[derive(Debug)]
pub struct Download {
    pub repo: &'static str,
    pub file: &'static str,
    pub format: Format,
    pub outputs: Vec<Output>,
}

/// Whether an output is of the given part and has the given name.
pub open spec fn is_output(o: Output, part: Part, file: Seq<char>) -> bool {
    o.part == part && o.file@ == file
}

/// Whether a download is of the given file.
pub open spec fn is_of(d: Download, repo: Seq<char>, file: Seq<char>, format: Format) -> bool {
    d.repo@ == repo && d.file@ == file && d.format == format
}

/// The downloads of the Seed-VC engine, in order: the diffusion model and the length regulator,
/// which one file holds, the speaker encoder, the vocoder, and the encoder of Whisper.
pub open spec fn is_seedvc_plan(plan: Seq<Download>) -> bool {
    &&& plan.len() == 4
    &&& is_of(
        plan[0],
        "Plachta/Seed-VC"@,
        "DiT_seed_v2_uvit_whisper_small_wavenet_bigvgan_pruned.pth"@,
        Format::Pickle,
    )
    &&& plan[0].outputs@.len() == 2
    &&& is_output(plan[0].outputs@[0], Part::Under("net.cfm."), "seedvc_dit.safetensors"@)
    &&& is_output(plan[0].outputs@[1], Part::Under("net.length_regulator."), "seedvc_regulator.safetensors"@)
    &&& is_of(plan[1], "funasr/campplus"@, "campplus_cn_common.bin"@, Format::Pickle)
    &&& plan[1].outputs@.len() == 1
    &&& is_output(plan[1].outputs@[0], Part::All, "seedvc_campplus.safetensors"@)
    &&& is_of(plan[2], "nvidia/bigvgan_v2_22khz_80band_256x"@, "bigvgan_generator.pt"@, Format::Pickle)
    &&& plan[2].outputs@.len() == 1
    &&& is_output(plan[2].outputs@[0], Part::Generator, "seedvc_bigvgan.safetensors"@)
    &&& is_of(plan[3], "openai/whisper-small"@, "model.safetensors"@, Format::Safetensors)
    &&& plan[3].outputs@.len() == 1
    &&& is_output(plan[3].outputs@[0], Part::Subset("model.encoder."), "seedvc_whisper.safetensors"@)
}

/// The downloads of the Seed-VC engine.
pub fn seedvc_plan() -> (plan: Vec<Download>)
    ensures
        is_seedvc_plan(plan@),
{
    let main = Download {
        repo: "Plachta/Seed-VC",
        file: "DiT_seed_v2_uvit_whisper_small_wavenet_bigvgan_pruned.pth",
        format: Format::Pickle,
        outputs: vec![
            Output { part: Part::Under("net.cfm."), file: "seedvc_dit.safetensors" },
            Output { part: Part::Under("net.length_regulator."), file: "seedvc_regulator.safetensors" },
        ],
    };
    let speaker = Download {
        repo: "funasr/campplus",
        file: "campplus_cn_common.bin",
        format: Format::Pickle,
        outputs: vec![Output { part: Part::All, file: "seedvc_campplus.safetensors" }],
    };
    let vocoder = Download {
        repo: "nvidia/bigvgan_v2_22khz_80band_256x",
        file: "bigvgan_generator.pt",
        format: Format::Pickle,
        outputs: vec![Output { part: Part::Generator, file: "seedvc_bigvgan.safetensors" }],
    };
    let whisper = Download {
        repo: "openai/whisper-small",
        file: "model.safetensors",
        format: Format::Safetensors,
        outputs: vec![Output { part: Part::Subset("model.encoder."), file: "seedvc_whisper.safetensors" }],
    };
    vec![main, speaker, vocoder, whisper]
}

/// Whether `d` is a single-precision copy of the tensors under `generator.`, without it in their
/// names, or, where there are none, of all tensors. Where those under `generator.` do not all live in
/// main memory they may not be convertible; then too it may be all tensors.
pub open spec fn are_generator_tensors(all: Seq<(String, Tensor)>, d: Map<Seq<char>, Tensor>) -> bool {
    let own = taken(all, Some("generator."@), true);
    if own == Map::<Seq<char>, Tensor>::empty() {
        is_single_copy(taken(all, None, true), d)
    } else {
        ||| is_single_copy(own, d)
        ||| !are_convertible(all, Some("generator."@), true) && is_single_copy(taken(all, None, true), d)
    }
}

/// Whether the tensors under `generator.`, or all where there are none, are in main memory, where they
/// can be converted.
pub open spec fn generator_is_convertible(all: Seq<(String, Tensor)>) -> bool {
    if taken(all, Some("generator."@), true) == Map::<Seq<char>, Tensor>::empty() {
        are_convertible(all, None, true)
    } else {
        are_convertible(all, Some("generator."@), true)
    }
}

/// The tensors of the vocoder, weight norms not folded yet.
fn generator_tensors(all: &Vec<(String, Tensor)>) -> (r: Result<StateDict, CheckpointError>)
    requires
        are_readable(all@, None),
    ensures
        r matches Ok(d) ==> are_generator_tensors(all@, d@),
        r matches Err(e) ==> e is Backend || (e is NoTensors && taken(all@, None, true) == Map::<
            Seq<char>,
            Tensor,
        >::empty()),
        taken(all@, None, true) == Map::<Seq<char>, Tensor>::empty() ==> (r matches Err(e) && e is NoTensors),
        generator_is_convertible(all@) ==> (r matches Err(e) ==> e is NoTensors),
{
    proof {
        if all@.len() > 0 {
            assert(taken(all@, None, true).contains_key(all@.last().0@));
        }
    }
    match select(all, Some("generator.")) {
        Ok(d) => Ok(d),
        Err(_) => select(all, None),
    }
}

/// Whether `d` is the part `part` of the tensors `all`, in single precision.
pub open spec fn is_part(part: Part, all: Seq<(String, Tensor)>, d: Map<Seq<char>, Tensor>) -> bool {
    match part {
        Part::Under(prefix) => is_single_copy(taken(all, Some(prefix@), true), d),
        Part::All => is_single_copy(taken(all, None, true), d),
        Part::Generator => exists|given: Map<Seq<char>, Tensor>| #[trigger]
            are_generator_tensors(all, given) && is_weight_norm_fold(given, d),
        Part::Subset(prefix) => is_single_copy(taken(all, Some(prefix@), false), d),
    }
}

/// Whether a part that has to hold tensors finds none.
pub open spec fn lacks_tensors(part: Part, all: Seq<(String, Tensor)>) -> bool {
    match part {
        Part::Under(prefix) => taken(all, Some(prefix@), true) == Map::<Seq<char>, Tensor>::empty(),
        Part::All | Part::Generator => taken(all, None, true) == Map::<Seq<char>, Tensor>::empty(),
        Part::Subset(_) => false,
    }
}

/// Whether all tensors of a part are in main memory, where they can be converted.
pub open spec fn is_convertible(part: Part, all: Seq<(String, Tensor)>) -> bool {
    match part {
        Part::Under(prefix) => are_convertible(all, Some(prefix@), true),
        Part::All => are_convertible(all, None, true),
        Part::Generator => generator_is_convertible(all),
        Part::Subset(prefix) => are_convertible(all, Some(prefix@), false),
    }
}

/// Whether a name is that of a direction or a magnitude of a weight norm.
pub open spec fn is_normal_name(name: Seq<char>) -> bool {
    "weight_g"@.is_suffix_of(name) || "weight_v"@.is_suffix_of(name)
}

/// Whether no direction and no magnitude has more axes than candle can walk through.
pub open spec fn norms_have_few_axes(all: Seq<(String, Tensor)>) -> bool {
    forall|i: int|
        0 <= i < all.len() && is_normal_name((#[trigger] all[i]).0@) ==> shape(all[i].1).len() <= MAX_AXES
}

/// Whether candle can compute with the tensors of a part: they begin within their storage, and
/// where weight norms are folded, these have few axes.
pub open spec fn is_computable(part: Part, all: Seq<(String, Tensor)>) -> bool {
    match part {
        Part::Under(prefix) => are_readable(all, Some(prefix@)),
        Part::All => are_readable(all, None),
        Part::Generator => are_readable(all, None) && norms_have_few_axes(all),
        Part::Subset(prefix) => are_readable(all, Some(prefix@)),
    }
}

/// Whether candle can compute with the tensors of a part.
pub fn can_take(part: Part, all: &Vec<(String, Tensor)>) -> (r: bool)
    ensures
        r == is_computable(part, all@),
{
    match part {
        Part::Under(prefix) => can_read(all, Some(prefix)),
        Part::All => can_read(all, None),
        Part::Generator => can_read(all, None) && few_axes(all),
        Part::Subset(prefix) => can_read(all, Some(prefix)),
    }
}

/// Whether no direction and no magnitude has more axes than candle can walk through.
fn few_axes(all: &Vec<(String, Tensor)>) -> (r: bool)
    ensures
        r == norms_have_few_axes(all@),
{
    let mut i: usize = 0;
    while i < all.len()
        invariant
            i <= all@.len(),
            forall|k: int|
                0 <= k < i && is_normal_name((#[trigger] all@[k]).0@) ==> shape(all@[k].1).len() <= MAX_AXES,
        decreases all@.len() - i,
    {
        let name = all[i].0.as_str();
        let normal = strip_suffix(name, "weight_g").is_some() || strip_suffix(name, "weight_v").is_some();
        if normal && all[i].1.dims().len() > MAX_AXES {
            assert(is_normal_name(all@[i as int].0@));
            return false;
        }
        i += 1;
    }
    true
}

/// Where a tensor that is taken comes from.
proof fn lemma_taken_from(all: Seq<(String, Tensor)>, prefix: Option<Seq<char>>, strip: bool, name: Seq<char>) -> (i:
    int)
    requires
        taken(all, prefix, strip).contains_key(name),
    ensures
        0 <= i < all.len(),
        taken_name(all[i].0@, prefix, strip) == Some(name),
        taken(all, prefix, strip)[name] == all[i].1,
    decreases all.len(),
{
    if taken_name(all.last().0@, prefix, strip) == Some(name) {
        all.len() - 1
    } else {
        lemma_taken_from(all.drop_last(), prefix, strip, name)
    }
}

/// Names that are shortened at the front end as they did.
proof fn lemma_taken_ending(name: Seq<char>, prefix: Option<Seq<char>>, strip: bool, ending: Seq<char>)
    requires
        taken_name(name, prefix, strip) matches Some(short) && ending.is_suffix_of(short),
    ensures
        ending.is_suffix_of(name),
{
    let short = taken_name(name, prefix, strip)->Some_0;
    let n = name.len() as int;
    assert(name.subrange(n - ending.len(), n) =~= short.subrange(short.len() - ending.len(), short.len() as int));
}

/// The vocoder's weight norms can be folded with candle.
proof fn lemma_generator_pairs(all: Seq<(String, Tensor)>, d: Map<Seq<char>, Tensor>)
    requires
        norms_have_few_axes(all),
        are_generator_tensors(all, d),
    ensures
        are_pairs(d),
{
    let own = taken(all, Some("generator."@), true);
    let prefix = if own != Map::<Seq<char>, Tensor>::empty() && is_single_copy(own, d) {
        Some("generator."@)
    } else {
        None
    };
    assert(is_single_copy(taken(all, prefix, true), d));
    assert forall|base: Seq<char>|
        d.contains_key(#[trigger] magnitude_name(base)) && d.contains_key(direction_name(base)) implies is_pair(
        d[direction_name(base)],
        d[magnitude_name(base)],
    ) by {
        let (g, v) = (magnitude_name(base), direction_name(base));
        assert("weight_g"@ =~= g.subrange(g.len() - "weight_g"@.len(), g.len() as int));
        assert("weight_v"@ =~= v.subrange(v.len() - "weight_v"@.len(), v.len() as int));
        let i = lemma_taken_from(all, prefix, true, g);
        let j = lemma_taken_from(all, prefix, true, v);
        lemma_taken_ending(all[i].0@, prefix, true, "weight_g"@);
        lemma_taken_ending(all[j].0@, prefix, true, "weight_v"@);
        assert(is_normal_name(all[i].0@) && is_normal_name(all[j].0@));
    }
}

/// Takes a part of a downloaded checkpoint.
pub fn take_part(part: Part, all: &Vec<(String, Tensor)>) -> (r: Result<StateDict, CheckpointError>)
    requires
        is_computable(part, all@),
    ensures
        r matches Ok(d) ==> is_part(part, all@, d@),
        r matches Ok(d) ==> forall|name: Seq<char>| #[trigger] d@.contains_key(name) ==> is_single(d@[name]),
        lacks_tensors(part, all@) <==> (r matches Err(e) && e is NoTensors),
        r matches Err(e) ==> e is MissingDirection ==> part is Generator,
        r matches Err(e) ==> part is Generator && e !is NoTensors && (e is MissingDirection || is_convertible(
            part,
            all@,
        )) ==> exists|given: Map<Seq<char>, Tensor>| #[trigger]
            are_generator_tensors(all@, given) && is_fold_error(given, e),
        part !is Generator && is_convertible(part, all@) && !lacks_tensors(part, all@) ==> r is Ok,
        part matches Part::Subset(prefix) ==> taken(all@, Some(prefix@), false) == Map::<Seq<char>, Tensor>::empty()
            ==> r is Ok,
{
    let r = match part {
        Part::Under(prefix) => select(all, Some(prefix)),
        Part::All => select(all, None),
        Part::Generator => match generator_tensors(all) {
            Ok(d) => {
                let ghost given = d@;
                proof {
                    lemma_generator_pairs(all@, given);
                }
                let r = fold_weight_norm(d);
                assert(are_generator_tensors(all@, given));
                r
            },
            Err(e) => Err(e),
        },
        Part::Subset(prefix) => subset(all, prefix),
    };
    proof {
        if r is Ok {
            let d = r->Ok_0;
            assert forall|name: Seq<char>| #[trigger] d@.contains_key(name) implies is_single(d@[name]) by {
                law_parts_are_in_single_precision(part, all@, d@, name);
            }
        }
    }
    r
}

/// Every tensor of a part is in single precision, whatever it was in the checkpoint.
pub proof fn law_parts_are_in_single_precision(
    part: Part,
    all: Seq<(String, Tensor)>,
    d: Map<Seq<char>, Tensor>,
    name: Seq<char>,
)
    requires
        is_part(part, all, d),
        d.contains_key(name),
    ensures
        is_single(d[name]),
{
    if part is Generator {
        let given = choose|given: Map<Seq<char>, Tensor>| #[trigger]
            are_generator_tensors(all, given) && is_weight_norm_fold(given, d);
        if stays(given, name) {
            assert(given.contains_key(name));
        } else {
            let base = choose|base: Seq<char>|
                given.contains_key(#[trigger] magnitude_name(base)) && name == weight_name(base);
            assert(given.contains_key(direction_name(base)));
        }
    }
}

/// The vocoder's tensors hold no magnitude of a weight norm.
pub proof fn law_vocoder_holds_no_magnitude(
    all: Seq<(String, Tensor)>,
    d: Map<Seq<char>, Tensor>,
    base: Seq<char>,
)
    requires
        is_part(Part::Generator, all, d),
    ensures
        !d.contains_key(magnitude_name(base)),
{
    let given = choose|given: Map<Seq<char>, Tensor>| #[trigger]
        are_generator_tensors(all, given) && is_weight_norm_fold(given, d);
    law_folding_leaves_no_magnitude(given, d, base);
}

} // verus!
