//! Generators and their content hashes.

use jishuken::generator::{
    collect, load_handler, supervise, GeneratorRegistry, GeneratorSrc, RunPlan, Sandbox,
    Supervision, Wait,
};
use jishuken::schema::Capabilities;
use jishuken::time::Elapsed;

fn caps(net: &[&str], read: &[&str], env: &[&str]) -> Capabilities {
    let list = |v: &[&str]| v.iter().map(|s| s.to_string()).collect();
    Capabilities { net: list(net), read: list(read), env: list(env) }
}

#[test]
fn hash_covers_capabilities() {
    let net_free = GeneratorSrc::new("v.ts".into(), "console.log('x')".into(), caps(&[], &[], &[]));
    let with_net = GeneratorSrc::new(
        "v.ts".into(),
        "console.log('x')".into(),
        caps(&["example.com"], &[], &[]),
    );
    assert_ne!(net_free.hash(), with_net.hash());
}

#[test]
fn net_generator_costs_more() {
    let net_free = GeneratorSrc::new("v.ts".into(), "x".into(), caps(&[], &[], &[]));
    let with_net = GeneratorSrc::new("v.ts".into(), "x".into(), caps(&["a.com"], &[], &[]));
    assert!(
        f64::from_bits(with_net.cost_estimate.bits) > f64::from_bits(net_free.cost_estimate.bits)
    );
}

#[test]
fn hash_ignores_the_order_of_capabilities() {
    let a = GeneratorSrc::new("v.ts".into(), "x".into(), caps(&["a.com", "b.com"], &["/"], &["K"]));
    let b = GeneratorSrc::new("w.ts".into(), "x".into(), caps(&["b.com", "a.com"], &["/"], &["K"]));
    assert_eq!(a.hash(), b.hash());
    let c = GeneratorSrc::new("v.ts".into(), "y".into(), caps(&["a.com", "b.com"], &["/"], &["K"]));
    assert_ne!(a.hash(), c.hash());
}

#[test]
fn handler_hash_covers_env_caps() {
    let module = "export default { fetch: (r: string) => r };";
    let (_, plain) = load_handler("wiki", "handlers/wiki.ts", module.into(), caps(&[], &[], &[]));
    let (_, with_env) =
        load_handler("wiki", "handlers/wiki.ts", module.into(), caps(&[], &[], &["WIKI_TOKEN"]));
    assert_ne!(plain.hash, with_env.hash, "env caps must fold into the hash");
    assert_eq!(with_env.scheme, "wiki");
    assert_eq!(with_env.src_path, "handlers/wiki.ts");
}

#[test]
fn hash_mismatch_never_starts_the_runtime() {
    let sb = Sandbox::new("runtime".into(), Elapsed { secs: 10, nanos: 0 });
    let original =
        GeneratorSrc::new("reader.ts".into(), "trusted source".into(), Capabilities::default());
    let recorded = original.hash();
    let mut changed_source = original.clone();
    changed_source.source = "changed source".into();
    let mut changed_caps = original.clone();
    changed_caps.caps.env.push("TOKEN".into());

    for src in [&changed_source, &changed_caps] {
        for plan in [
            sb.run(src, Some(&recorded), "claim", 7, 0),
            sb.run_handler(src, Some(&recorded), "reference", &None, 7, 1),
        ] {
            let RunPlan::Refused(run) = plan else {
                panic!("a changed hash must prevent execution: {plan:?}");
            };
            assert!(run.hash_changed);
            assert!(!run.spawned, "a changed hash must prevent execution: {run:?}");
            assert!(!run.ok());
            assert_eq!(run.exit_code, None);
            assert!(run.stdout.is_empty());
        }
    }

    // Matching hashes can still execute.
    for plan in [
        sb.run(&original, Some(&recorded), "claim", 7, 2),
        sb.run_handler(&original, Some(&recorded), "reference", &None, 7, 3),
    ] {
        assert!(matches!(plan, RunPlan::Start(_)), "a matching hash should execute: {plan:?}");
        let run = collect(Supervision::Done { exit_code: Some(0) }, false, "trusted".into());
        assert!(run.ok());
        assert_eq!(run.stdout, "trusted");
    }
}

#[test]
fn a_registry_names_files_by_their_hash() {
    let src = GeneratorSrc::new("v.ts".into(), "x".into(), caps(&[], &[], &[]));
    let hash = src.hash().0;
    let (reference, path, meta) = GeneratorRegistry::new("/store").put(&src);
    assert_eq!(path, format!("verifiers/{}.ts", &hash[..16]));
    assert_eq!(meta, format!("{path}.json"));
    assert_eq!(reference.hash.0, hash);
    assert_eq!(reference.display(), format!("v.ts@{}", &hash[..6]));
}

#[test]
fn a_launch_is_given_its_capabilities_and_no_more() {
    let sb = Sandbox::new("deno".into(), Elapsed { secs: 10, nanos: 0 });
    let src = GeneratorSrc::new("v.ts".into(), "code".into(), caps(&["a.com", "b.com"], &["/d"], &["K"]));
    let hash = src.hash().0;
    let RunPlan::Start(launch) = sb.run(&src, None, "claim", 7, 2) else { panic!() };
    assert_eq!(
        launch.args,
        [
            "run",
            "--no-prompt",
            "--quiet",
            "--allow-env=KEN_VALUE,K",
            "--allow-net=a.com,b.com",
            "--allow-read=/d",
        ]
    );
    let stem = format!("{}-7-2", &hash[..16]);
    assert_eq!(launch.entry, format!("ken-gen-{stem}.ts"));
    assert_eq!(launch.env, [("KEN_VALUE".to_string(), "claim".to_string())]);
    assert_eq!(launch.inputs.len(), 1);
    assert_eq!((&launch.inputs[0].name, launch.inputs[0].contents.as_str()), (&launch.entry, "code"));
    assert_eq!(launch.stdout, format!("ken-gen-out-{stem}.log"));
    assert_eq!(launch.stderr, format!("ken-gen-err-{stem}.log"));
}

#[test]
fn a_handler_is_called_by_a_bootstrap() {
    let sb = Sandbox::new("deno".into(), Elapsed { secs: 10, nanos: 0 });
    let src = GeneratorSrc::new("wiki".into(), "code".into(), caps(&[], &[], &["T\"OKEN"]));
    let hash = src.hash().0;
    let rev = Some("v1".to_string());
    let RunPlan::Start(launch) = sb.run_handler(&src, None, "Page", &rev, 7, 2) else { panic!() };
    let stem = format!("{}-7-2", &hash[..16]);
    assert_eq!(launch.args, ["run", "--no-prompt", "--quiet", "--allow-env=KEN_REF,KEN_REV,T\"OKEN"]);
    assert_eq!(launch.env[0], ("KEN_REF".to_string(), "Page".to_string()));
    assert_eq!(launch.env[1], ("KEN_REV".to_string(), "v1".to_string()));
    assert_eq!(launch.inputs[0].name, format!("ken-handler-{stem}.ts"));
    assert_eq!(launch.inputs[0].contents, "code");
    assert_eq!(launch.inputs[1].name, launch.entry);
    assert_eq!(
        launch.inputs[1].contents,
        format!(
            "import handler from \"./ken-handler-{stem}.ts\";\n\
             const reference = Deno.env.get(\"KEN_REF\") ?? \"\";\n\
             const env: Record<string, string> = {{}};\n\
             for (const k of [\"T\\\"OKEN\"]) {{ const v = Deno.env.get(k); if (v !== undefined) env[k] = v; }}\n\
             const out = await handler.fetch(reference, env);\n\
             const text = typeof out === \"string\" ? out : JSON.stringify(out);\n\
             await Deno.stdout.write(new TextEncoder().encode(text));\n"
        )
    );
    let RunPlan::Start(unpinned) = sb.run_handler(&src, None, "Page", &None, 7, 2) else {
        panic!()
    };
    assert_eq!(unpinned.env[1].1, "");
}

#[test]
fn a_run_is_supervised_to_its_end_or_its_timeout() {
    assert_eq!(supervise(Wait::Running, false), Supervision::Sleep);
    assert_eq!(supervise(Wait::Running, true), Supervision::Kill);
    assert_eq!(supervise(Wait::Exited(Some(2)), true), Supervision::Done { exit_code: Some(2) });
    assert_eq!(supervise(Wait::Failed, false), Supervision::Done { exit_code: None });
    let killed = collect(Supervision::Kill, true, "partial".into());
    assert!(killed.spawned && killed.timed_out && killed.stderr_nonempty && !killed.ok());
    assert_eq!((killed.exit_code, killed.stdout.as_str()), (None, "partial"));
}

#[test]
fn two_runs_share_no_file() {
    let sb = Sandbox::new("deno".into(), Elapsed { secs: 10, nanos: 0 });
    let src = GeneratorSrc::new("v.ts".into(), "code".into(), caps(&[], &[], &[]));
    let mut entries = Vec::new();
    for (process, nonce) in [(1, 11), (11, 1), (1, 1), (11, 11)] {
        let RunPlan::Start(launch) = sb.run(&src, None, "claim", process, nonce) else { panic!() };
        assert!(!entries.contains(&launch.entry));
        entries.push(launch.entry);
    }
}
