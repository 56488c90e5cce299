use babiniku::checkpoint::CheckpointError;
use babiniku::fetch::{
    accepts, can_take, default_ckpt_dir, engine_of, parse_args, seedvc_plan, take_part, ArgError, Command, Engine,
    Format, Part, Platform, Variable,
};
use candle_core::{DType, Device, Tensor};

fn parse(args: &[&str]) -> Result<Command, ArgError> {
    parse_args(&args.iter().map(|a| a.to_string()).collect())
}

fn run(args: &[&str]) -> (Option<String>, Option<String>, bool) {
    match parse(args) {
        Ok(Command::Run { engine, ckpt_dir, yes }) => (engine, ckpt_dir, yes),
        other => panic!("{other:?}"),
    }
}

fn some(s: &str) -> Option<String> {
    Some(s.to_string())
}

#[test]
fn command_lines_are_parsed() {
    assert_eq!(run(&[]), (None, None, false));
    assert_eq!(run(&["seedvc"]), (some("seedvc"), None, false));
    assert_eq!(run(&["seedvc", "--yes"]), (some("seedvc"), None, true));
    assert_eq!(run(&["-y", "--ckpt-dir", "d", "seedvc"]), (some("seedvc"), some("d"), true));
    assert_eq!(run(&["--ckpt-dir", "--yes"]), (None, some("--yes"), false));
    assert_eq!(run(&["--ckpt-dir", "a", "--ckpt-dir", "b"]), (None, some("b"), false));
    assert_eq!(run(&[""]), (some(""), None, false));
}

#[test]
fn help_ends_the_line() {
    assert!(matches!(parse(&["--help"]), Ok(Command::Help)));
    assert!(matches!(parse(&["seedvc", "-h", "--bogus"]), Ok(Command::Help)));
}

#[test]
fn command_lines_are_rejected() {
    assert!(matches!(parse(&["seedvc", "--ckpt-dir"]), Err(ArgError::MissingDir)));
    match parse(&["seedvc", "meanvc"]) {
        Err(ArgError::Unknown(a)) => assert_eq!(a, "meanvc"),
        other => panic!("{other:?}"),
    }
    match parse(&["--bogus", "--help"]) {
        Err(ArgError::Unknown(a)) => assert_eq!(a, "--bogus"),
        other => panic!("{other:?}"),
    }
}

#[test]
fn engines_are_recognised() {
    assert!(matches!(engine_of(some("seedvc")), Engine::SeedVc));
    assert!(matches!(engine_of(None), Engine::Missing));
    match engine_of(some("xvc")) {
        Engine::Unknown(n) => assert_eq!(n, "xvc"),
        other => panic!("{other:?}"),
    }
}

#[test]
fn answers_are_understood() {
    for yes in ["y", "Y", "yes", " y\n", "yes\r\n", "\tY "] {
        assert!(accepts(yes), "{yes:?}");
    }
    for no in ["", "\n", "n", "no", "YES", "Yes", "yy", "y y"] {
        assert!(!accepts(no), "{no:?}");
    }
}

#[test]
fn default_ckpt_dir_prefers_checkout() {
    for platform in [Platform::MacOs, Platform::Windows, Platform::Other] {
        for local in [true, false] {
            let d = default_ckpt_dir(local, platform, true, true, true).unwrap();
            assert!(d.parts.concat().contains("ckpt"));
            assert_eq!(d.base.is_none(), local);
        }
        assert_eq!(default_ckpt_dir(true, platform, false, false, false).unwrap().parts, vec!["ckpt"]);
    }
}

#[test]
fn data_directories_follow_the_platform() {
    let d = default_ckpt_dir(false, Platform::MacOs, true, false, false).unwrap();
    assert_eq!(d.base, Some(Variable::Home));
    assert_eq!(d.parts, vec!["Library/Application Support", "babiniku/ckpt"]);
    assert!(default_ckpt_dir(false, Platform::MacOs, false, true, true).is_none());
    let d = default_ckpt_dir(false, Platform::Windows, false, true, false).unwrap();
    assert_eq!(d.base, Some(Variable::AppData));
    assert_eq!(d.parts, vec!["babiniku/ckpt"]);
    assert!(default_ckpt_dir(false, Platform::Windows, true, false, true).is_none());
    let d = default_ckpt_dir(false, Platform::Other, true, false, true).unwrap();
    assert_eq!(d.base, Some(Variable::XdgDataHome));
    assert_eq!(d.parts, vec!["babiniku/ckpt"]);
    let d = default_ckpt_dir(false, Platform::Other, true, false, false).unwrap();
    assert_eq!(d.base, Some(Variable::Home));
    assert_eq!(d.parts, vec![".local/share", "babiniku/ckpt"]);
    assert!(default_ckpt_dir(false, Platform::Other, false, true, false).is_none());
}

#[test]
fn plan_covers_the_engine() {
    let plan = seedvc_plan();
    let files: Vec<&str> = plan.iter().flat_map(|d| d.outputs.iter().map(|o| o.file)).collect();
    assert_eq!(
        files,
        vec![
            "seedvc_dit.safetensors",
            "seedvc_regulator.safetensors",
            "seedvc_campplus.safetensors",
            "seedvc_bigvgan.safetensors",
            "seedvc_whisper.safetensors",
        ]
    );
    assert_eq!(plan[3].repo, "openai/whisper-small");
    assert_eq!(plan[3].format, Format::Safetensors);
    assert!(plan[..3].iter().all(|d| d.format == Format::Pickle));
}

fn entries(names: &[&str]) -> Vec<(String, Tensor)> {
    names
        .iter()
        .enumerate()
        .map(|(i, n)| (n.to_string(), Tensor::new(&[i as f32 + 1.0], &Device::Cpu).unwrap()))
        .collect()
}

fn names_of(part: Part, all: &[&str]) -> Vec<String> {
    let d = take_part(part, &entries(all)).unwrap();
    let mut v: Vec<String> = d.entries().iter().map(|(k, _)| k.clone()).collect();
    v.sort();
    v
}

#[test]
fn parts_are_taken() {
    assert_eq!(names_of(Part::Under("net.cfm."), &["net.cfm.a", "b"]), vec!["a"]);
    assert_eq!(names_of(Part::All, &["net.cfm.a", "b"]), vec!["b", "net.cfm.a"]);
    assert_eq!(names_of(Part::Subset("m."), &["m.a", "b"]), vec!["m.a"]);
    assert_eq!(names_of(Part::Generator, &["generator.a", "b"]), vec!["a"]);
    assert_eq!(names_of(Part::Generator, &["x.weight_g", "x.weight_v", "b"]), vec!["b", "x.weight"]);
    assert_eq!(
        names_of(Part::Generator, &["generator.x.weight_g", "generator.x.weight_v", "b"]),
        vec!["x.weight"]
    );
}

#[test]
fn the_vocoder_is_what_stands_under_generator() {
    let all = entries(&["a", "generator.a", "generator.b", "b"]);
    let d = take_part(Part::Generator, &all).unwrap();
    assert_eq!(d.entries().len(), 2);
    assert_eq!(d.get("a").unwrap().to_vec1::<f32>().unwrap(), vec![2.0]);
    assert_eq!(d.get("b").unwrap().to_vec1::<f32>().unwrap(), vec![3.0]);
}

#[test]
fn parts_are_in_single_precision() {
    let names = ["generator.x.weight_g", "generator.x.weight_v", "generator.bias", "count"];
    for dtype in [DType::F16, DType::F64, DType::F32] {
        let all: Vec<(String, Tensor)> =
            entries(&names).into_iter().map(|(k, t)| (k, t.to_dtype(dtype).unwrap())).collect();
        let parts = [Part::Generator, Part::All, Part::Under("generator."), Part::Subset("generator.x.")];
        for part in parts {
            let d = take_part(part, &all).unwrap();
            assert!(d.entries().iter().all(|(_, t)| t.dtype() == DType::F32), "{part:?} of {dtype:?}");
        }
        let d = take_part(Part::Generator, &all).unwrap();
        assert!(d.get("x.weight_g").is_none());
        assert_eq!(d.get("x.weight").unwrap().to_vec1::<f32>().unwrap(), vec![1.0]);
    }
}

#[test]
fn parts_that_are_not_there_are_rejected() {
    assert!(matches!(take_part(Part::Under("a."), &entries(&["b"])), Err(CheckpointError::NoTensors)));
    assert!(matches!(take_part(Part::All, &vec![]), Err(CheckpointError::NoTensors)));
    assert!(matches!(take_part(Part::Generator, &vec![]), Err(CheckpointError::NoTensors)));
    assert!(matches!(
        take_part(Part::Generator, &entries(&["x.weight_g"])),
        Err(CheckpointError::MissingDirection(_))
    ));
    assert_eq!(take_part(Part::Subset("a."), &entries(&["b"])).unwrap().entries().len(), 0);
}

#[test]
fn parts_have_to_be_computable() {
    let x = Tensor::zeros((3, 5), DType::F32, &Device::Cpu).unwrap();
    let beyond = x.narrow(0, 3, 0).unwrap().narrow(1, 5, 0).unwrap();
    let all = vec![("a.x".to_string(), x.clone()), ("b.y".to_string(), beyond)];
    assert!(can_take(Part::Under("a."), &all));
    assert!(can_take(Part::Subset("a."), &all));
    assert!(!can_take(Part::Under("b."), &all));
    assert!(!can_take(Part::Subset("b."), &all));
    assert!(!can_take(Part::All, &all));
    assert!(!can_take(Part::Generator, &all));
    let wide = x.reshape(vec![3, 5, 1, 1, 1, 1, 1, 1, 1]).unwrap();
    let of = |name: &str| vec![(name.to_string(), wide.clone())];
    assert!(can_take(Part::All, &of("a.weight_v")));
    assert!(can_take(Part::Generator, &of("a.weight")));
    assert!(!can_take(Part::Generator, &of("a.weight_v")));
    assert!(!can_take(Part::Generator, &of("generator.a.weight_g")));
    let eight = vec![("a.weight_v".to_string(), x.reshape(vec![3, 5, 1, 1, 1, 1, 1, 1]).unwrap())];
    assert!(can_take(Part::Generator, &eight));
}
