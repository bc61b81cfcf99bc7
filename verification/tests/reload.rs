use slate::config::{App, Hardware, Palette, ReloadSignal, SlateConfig};
use slate::reload::{
    enabled, send_reload_signal, unique_signals, Action, DeploymentError, DeploymentPipeline, Outcome,
    PipelineError, Stage,
};
use slate::template::{render_outcome, RenderError, RenderFailure, TemplateEngine};
use std::collections::BTreeMap;
use tera::{Context, Tera};

fn app(name: &str, is_enabled: bool, path: &str, signal: ReloadSignal) -> App {
    App {
        name: name.to_string(),
        enabled: is_enabled,
        template_path: format!("{}.tpl", path),
        config_path: path.to_string(),
        reload_signal: signal,
    }
}

fn bar() -> ReloadSignal {
    ReloadSignal::Signal { signal: "bar".to_string() }
}

fn config(apps: Vec<App>) -> SlateConfig {
    SlateConfig {
        palette: Palette {
            mode: "manual".to_string(),
            bg_void: "#0b0c10".to_string(),
            bg_void_transparent: "#0b0c1099".to_string(),
            bg_surface: "#14161c".to_string(),
            bg_overlay: "#1a1d26".to_string(),
            foreground: "#aeb3c2".to_string(),
            foreground_dim: "#555b6e".to_string(),
            accent: "#ffffff".to_string(),
            accent_bright: "#7aa2cf".to_string(),
        },
        hardware: Hardware {
            monitor_scale: "1.0".to_string(),
            root_uuid: "u".to_string(),
            font_family: "f".to_string(),
            wallpaper: "w".to_string(),
        },
        apps,
    }
}

fn three_apps() -> SlateConfig {
    config(vec![
        app("bar-style", true, "waybar/style.css", bar()),
        app("off", false, "off/config", ReloadSignal::Hyprctl),
        app("bar-config", true, "waybar/config", bar()),
        app("term", true, "ghostty/config", ReloadSignal::Nothing),
    ])
}

fn show(a: &Action) -> String {
    match a {
        Action::Render { template_path } => format!("render {}", template_path),
        Action::Print { config_path, content } => format!("print {} {}", config_path, content),
        Action::WriteTemp { temp_path, content } => format!("write {} {}", temp_path, content),
        Action::Rename { temp_path, final_path } => format!("rename {} {}", temp_path, final_path),
        Action::Notify { signal } => format!("notify {:?}", signal),
        Action::Finish => "finish".to_string(),
    }
}

fn drive(p: &mut DeploymentPipeline, fail_at: Option<usize>) -> Vec<String> {
    let mut log = Vec::new();
    loop {
        let action = p.next_action();
        log.push(show(&action));
        let failing = fail_at == Some(log.len() - 1);
        let outcome = match action {
            Action::Finish => return log,
            Action::Render { template_path } => {
                if failing {
                    Outcome::RenderFailed(RenderError::FilterInputInvalid {
                        template: template_path,
                        detail: "bad".to_string(),
                    })
                } else {
                    Outcome::Rendered(format!("<{}>", template_path))
                }
            }
            _ => {
                if failing {
                    Outcome::Failed("denied".to_string())
                } else {
                    Outcome::Succeeded
                }
            }
        };
        p.record(outcome);
    }
}

#[test]
fn deployment_renders_stages_commits_and_notifies_in_order() {
    let mut p = DeploymentPipeline::new(&three_apps(), "/c", false);
    assert_eq!(p.stage(), Stage::Idle);
    let log = drive(&mut p, None);
    assert_eq!(
        log,
        vec![
            "render waybar/style.css.tpl",
            "render waybar/config.tpl",
            "render ghostty/config.tpl",
            "write /c/waybar/style.css.tmp <waybar/style.css.tpl>",
            "write /c/waybar/config.tmp <waybar/config.tpl>",
            "write /c/ghostty/config.tmp <ghostty/config.tpl>",
            "rename /c/waybar/style.css.tmp /c/waybar/style.css",
            "rename /c/waybar/config.tmp /c/waybar/config",
            "rename /c/ghostty/config.tmp /c/ghostty/config",
            "notify Signal { signal: \"bar\" }",
            "finish",
        ]
    );
    assert_eq!(p.stage(), Stage::Done);
    assert!(p.failure().is_none());
    let outputs = p.outputs();
    assert_eq!(outputs.len(), 3);
    assert_eq!(outputs[1].app.name, "bar-config");
    assert_eq!(outputs[1].content, "<waybar/config.tpl>");
}

#[test]
fn two_apps_with_one_signal_give_one_dispatch() {
    let c = config(vec![
        app("bar-style", true, "waybar/style.css", bar()),
        app("bar-config", true, "waybar/config", bar()),
    ]);
    let mut p = DeploymentPipeline::new(&c, "/c", false);
    let log = drive(&mut p, None);
    let notifies: Vec<&String> = log.iter().filter(|l| l.starts_with("notify")).collect();
    assert_eq!(notifies, vec!["notify Signal { signal: \"bar\" }"]);
}

#[test]
fn unique_signals_keep_first_seen_order() {
    let apps = vec![
        app("a", true, "a", ReloadSignal::Makoctl),
        app("b", true, "b", ReloadSignal::Nothing),
        app("c", true, "c", bar()),
        app("d", true, "d", ReloadSignal::Makoctl),
        app("e", true, "e", ReloadSignal::Signal { signal: "foot".to_string() }),
        app("f", true, "f", ReloadSignal::Hyprpaper),
        app("g", true, "g", bar()),
        app("h", true, "h", ReloadSignal::Hyprctl),
        app("i", true, "i", ReloadSignal::Hyprpaper),
    ];
    let shown: Vec<String> = unique_signals(&apps).iter().map(|s| format!("{:?}", s)).collect();
    assert_eq!(
        shown,
        vec!["Makoctl", "Signal { signal: \"bar\" }", "Signal { signal: \"foot\" }", "Hyprpaper", "Hyprctl"]
    );
    assert!(unique_signals(&Vec::new()).is_empty());
}

#[test]
fn disabled_apps_are_left_out() {
    let names: Vec<String> = enabled(&three_apps().apps).into_iter().map(|a| a.name).collect();
    assert_eq!(names, vec!["bar-style", "bar-config", "term"]);
}

#[test]
fn dry_run_only_renders_and_prints() {
    let mut p = DeploymentPipeline::new(&three_apps(), "/c", true);
    let log = drive(&mut p, None);
    assert_eq!(
        log,
        vec![
            "render waybar/style.css.tpl",
            "render waybar/config.tpl",
            "render ghostty/config.tpl",
            "print waybar/style.css <waybar/style.css.tpl>",
            "print waybar/config <waybar/config.tpl>",
            "print ghostty/config <ghostty/config.tpl>",
            "finish",
        ]
    );
    assert_eq!(p.stage(), Stage::DryRunDone);
    assert!(p.failure().is_none());
}

#[test]
fn render_failure_aborts_before_any_write() {
    for dry_run in [false, true] {
        let mut p = DeploymentPipeline::new(&three_apps(), "/c", dry_run);
        let log = drive(&mut p, Some(1));
        assert_eq!(log, vec!["render waybar/style.css.tpl", "render waybar/config.tpl", "finish"]);
        assert_eq!(p.stage(), Stage::Aborted);
        match p.failure() {
            Some(PipelineError::Render(e)) => assert_eq!(e.template_path(), "waybar/config.tpl"),
            other => panic!("{:?}", other),
        }
        assert!(matches!(p.next_action(), Action::Finish));
        p.record(Outcome::Succeeded);
        assert_eq!(p.stage(), Stage::Aborted);
    }
}

#[test]
fn stage_failure_aborts_before_any_rename() {
    let mut p = DeploymentPipeline::new(&three_apps(), "/c", false);
    let log = drive(&mut p, Some(4));
    assert_eq!(log.len(), 6);
    assert!(log.iter().all(|l| !l.starts_with("rename") && !l.starts_with("notify")));
    assert_eq!(p.stage(), Stage::Aborted);
    match p.failure() {
        Some(PipelineError::Deployment(DeploymentError::StageWriteFailed { destination, reason })) => {
            assert_eq!(destination, "/c/waybar/config");
            assert_eq!(reason, "denied");
        }
        other => panic!("{:?}", other),
    }
}

#[test]
fn commit_failure_names_what_was_committed() {
    let mut p = DeploymentPipeline::new(&three_apps(), "/c", false);
    let log = drive(&mut p, Some(7));
    assert_eq!(log.len(), 9);
    assert!(log.iter().all(|l| !l.starts_with("notify")));
    assert_eq!(p.stage(), Stage::Aborted);
    match p.failure() {
        Some(PipelineError::Deployment(DeploymentError::CommitRenameFailed {
            committed,
            failed,
            pending,
            reason,
        })) => {
            assert_eq!(committed, &vec!["/c/waybar/style.css".to_string()]);
            assert_eq!(failed, "/c/waybar/config");
            assert_eq!(pending, &vec!["/c/ghostty/config".to_string()]);
            assert_eq!(reason, "denied");
        }
        other => panic!("{:?}", other),
    }
}

#[test]
fn failed_notification_does_not_fail_the_deployment() {
    let c = config(vec![
        app("a", true, "a", ReloadSignal::Makoctl),
        app("b", true, "b", ReloadSignal::Hyprctl),
    ]);
    let mut p = DeploymentPipeline::new(&c, "/c", false);
    let log = drive(&mut p, Some(6));
    assert_eq!(log[6], "notify Makoctl");
    assert_eq!(log[7], "notify Hyprctl");
    assert_eq!(log[8], "finish");
    assert_eq!(p.stage(), Stage::Done);
    assert!(p.failure().is_none());
    assert_eq!(format!("{:?}", p.unnotified()), "[Makoctl]");
}

#[test]
fn nothing_enabled_ends_at_once() {
    let c = config(vec![app("off", false, "off", ReloadSignal::Hyprctl)]);
    let mut p = DeploymentPipeline::new(&c, "/c", false);
    assert_eq!(drive(&mut p, None), vec!["finish"]);
    assert_eq!(p.stage(), Stage::Done);
    let mut p = DeploymentPipeline::new(&c, "/c", true);
    assert_eq!(drive(&mut p, None), vec!["finish"]);
    assert_eq!(p.stage(), Stage::DryRunDone);
}

#[test]
fn stages_are_passed_in_order() {
    let c = config(vec![app("a", true, "a", ReloadSignal::Makoctl)]);
    let mut p = DeploymentPipeline::new(&c, "/c", false);
    let mut seen = vec![p.stage()];
    loop {
        let action = p.next_action();
        seen.push(p.stage());
        match action {
            Action::Finish => break,
            Action::Render { .. } => p.record(Outcome::Rendered("x".to_string())),
            _ => p.record(Outcome::Succeeded),
        }
        seen.push(p.stage());
    }
    seen.dedup();
    assert_eq!(
        seen,
        vec![
            Stage::Idle,
            Stage::Rendering,
            Stage::Rendered,
            Stage::Staging,
            Stage::Staged,
            Stage::Committing,
            Stage::Committed,
            Stage::SignalDispatch,
            Stage::Done,
        ]
    );
}

#[test]
fn outcomes_that_answer_nothing_are_ignored() {
    let mut p = DeploymentPipeline::new(&three_apps(), "/c", false);
    p.record(Outcome::Succeeded);
    p.record(Outcome::Rendered("x".to_string()));
    assert_eq!(p.stage(), Stage::Idle);
    assert!(matches!(p.next_action(), Action::Render { .. }));
    p.record(Outcome::Succeeded);
    p.record(Outcome::Failed("x".to_string()));
    assert_eq!(p.stage(), Stage::Rendering);
    assert_eq!(p.outputs().len(), 0);
    assert_eq!(show(&p.next_action()), "render waybar/style.css.tpl");
}

fn engine(templates: &[(&str, &str)]) -> TemplateEngine {
    let mut tera = Tera::default();
    for (name, text) in templates {
        tera.add_raw_template(name, text).unwrap();
    }
    TemplateEngine::new(tera)
}

fn context() -> Context {
    let mut palette = BTreeMap::new();
    palette.insert("accent".to_string(), "#FFFFFF".to_string());
    let mut c = Context::new();
    c.insert("palette", &palette);
    c
}

fn render(e: &TemplateEngine, name: &str, c: &Context) -> Outcome {
    let outcome = e.tera().render(name, c).map_err(|error| RenderFailure {
        missing: matches!(error.kind, tera::ErrorKind::TemplateNotFound(_)),
        detail: error.to_string(),
    });
    match render_outcome(name, outcome) {
        Ok(text) => Outcome::Rendered(text),
        Err(e) => Outcome::RenderFailed(e),
    }
}

fn drive_with(p: &mut DeploymentPipeline, e: &TemplateEngine) -> Vec<String> {
    let mut log = Vec::new();
    loop {
        let action = p.next_action();
        log.push(show(&action));
        let outcome = match action {
            Action::Finish => return log,
            Action::Render { template_path } => render(e, &template_path, &context()),
            _ => Outcome::Succeeded,
        };
        p.record(outcome);
    }
}

#[test]
fn engine_renders_every_enabled_app() {
    let e = engine(&[
        ("waybar/style.css.tpl", "color: {{ palette.accent | hex }};"),
        ("waybar/config.tpl", "{{ palette.accent | plymouth }}"),
        ("ghostty/config.tpl", "plain"),
    ]);
    let mut p = DeploymentPipeline::new(&three_apps(), "/c", false);
    let log = drive_with(&mut p, &e);
    assert_eq!(p.stage(), Stage::Done);
    let texts: Vec<String> = p.outputs().into_iter().map(|o| o.content).collect();
    assert_eq!(texts, vec!["color: #ffffff;", "0xffffff", "plain"]);
    assert_eq!(log[3], "write /c/waybar/style.css.tmp color: #ffffff;");
}

#[test]
fn deployment_stops_at_the_first_template_that_fails() {
    let e = engine(&[("waybar/style.css.tpl", "ok"), ("ghostty/config.tpl", "never")]);
    let mut p = DeploymentPipeline::new(&three_apps(), "/c", false);
    let log = drive_with(&mut p, &e);
    assert_eq!(log, vec!["render waybar/style.css.tpl", "render waybar/config.tpl", "finish"]);
    assert_eq!(p.stage(), Stage::Aborted);
    assert_eq!(p.outputs().len(), 1);
    match p.failure() {
        Some(PipelineError::Render(RenderError::TemplateMissing { template, .. })) => {
            assert_eq!(template, "waybar/config.tpl")
        }
        other => panic!("{:?}", other),
    }
    assert!(matches!(p.next_action(), Action::Finish));
}

#[test]
fn reload_commands_for_each_signal() {
    let shown = |s: ReloadSignal| -> Vec<String> {
        send_reload_signal(&s)
            .iter()
            .map(|c| format!("{} {:?} {} {}", c.program, c.args, c.delay_ms, c.wait))
            .collect()
    };
    assert_eq!(shown(ReloadSignal::Hyprctl), vec!["hyprctl [\"reload\"] 0 true"]);
    assert_eq!(shown(ReloadSignal::Makoctl), vec!["makoctl [\"reload\"] 0 true"]);
    assert_eq!(shown(bar()), vec!["pkill [\"-SIGUSR2\", \"bar\"] 0 true"]);
    assert_eq!(
        shown(ReloadSignal::Hyprpaper),
        vec!["pkill [\"hyprpaper\"] 0 true", "hyprpaper [] 500 false"]
    );
    assert!(shown(ReloadSignal::Nothing).is_empty());
}

#[test]
fn destinations_that_differ_only_in_extension_have_their_own_temporary_files() {
    let c = config(vec![
        app("a-css", true, "x/a.css", ReloadSignal::Nothing),
        app("a-json", true, "x/a.json", ReloadSignal::Nothing),
    ]);
    let mut p = DeploymentPipeline::new(&c, "/c", false);
    assert_eq!(
        drive(&mut p, None),
        vec![
            "render x/a.css.tpl",
            "render x/a.json.tpl",
            "write /c/x/a.css.tmp <x/a.css.tpl>",
            "write /c/x/a.json.tmp <x/a.json.tpl>",
            "rename /c/x/a.css.tmp /c/x/a.css",
            "rename /c/x/a.json.tmp /c/x/a.json",
            "finish",
        ]
    );
    assert_eq!(p.stage(), Stage::Done);
}

fn clash_of(p: &DeploymentPipeline) -> String {
    match p.failure() {
        Some(PipelineError::Deployment(DeploymentError::StageWriteFailed { destination, reason })) => {
            assert_eq!(
                reason,
                "its temporary file is a destination or the temporary file of another application"
            );
            destination.clone()
        }
        other => panic!("{:?}", other),
    }
}

#[test]
fn a_temporary_file_that_is_a_destination_aborts_before_any_write() {
    for other_enabled in [true, false] {
        let c = config(vec![
            app("first", true, "ok", ReloadSignal::Makoctl),
            app("a", true, "x/a.css", ReloadSignal::Hyprctl),
            app("shadow", other_enabled, "x/a.css.tmp", ReloadSignal::Nothing),
        ]);
        let mut p = DeploymentPipeline::new(&c, "/c", false);
        assert!(p.is_wf());
        assert_eq!(p.stage(), Stage::Idle);
        let log = drive(&mut p, None);
        assert_eq!(log.last().unwrap(), "finish");
        assert!(log[..log.len() - 1].iter().all(|l| l.starts_with("render ")));
        assert_eq!(log.len(), if other_enabled { 4 } else { 3 });
        assert!(p.is_wf());
        assert_eq!(p.stage(), Stage::Aborted);
        assert_eq!(clash_of(&p), "/c/x/a.css");
        assert_eq!(drive(&mut p, None), vec!["finish"]);
    }
}

#[test]
fn two_applications_with_one_destination_abort_before_any_write() {
    let c = config(vec![
        app("one", true, "x/a.css", ReloadSignal::Nothing),
        app("off", false, "x/a.css", ReloadSignal::Nothing),
        app("two", true, "x/a.css", ReloadSignal::Nothing),
    ]);
    let mut p = DeploymentPipeline::new(&c, "/c", false);
    assert_eq!(
        drive(&mut p, None),
        vec!["render x/a.css.tpl", "render x/a.css.tpl", "finish"]
    );
    assert_eq!(p.stage(), Stage::Aborted);
    assert_eq!(clash_of(&p), "/c/x/a.css");
    let once = config(vec![
        app("one", true, "x/a.css", ReloadSignal::Nothing),
        app("off", false, "x/a.css", ReloadSignal::Nothing),
    ]);
    let mut p = DeploymentPipeline::new(&once, "/c", false);
    assert_eq!(drive(&mut p, None).len(), 4);
    assert_eq!(p.stage(), Stage::Done);
}

#[test]
fn a_failing_template_is_reported_before_a_clash() {
    let c = config(vec![
        app("a", true, "x/a.css", ReloadSignal::Nothing),
        app("shadow", true, "x/a.css.tmp", ReloadSignal::Nothing),
    ]);
    let mut p = DeploymentPipeline::new(&c, "/c", false);
    let log = drive(&mut p, Some(1));
    assert_eq!(log, vec!["render x/a.css.tpl", "render x/a.css.tmp.tpl", "finish"]);
    assert_eq!(p.stage(), Stage::Aborted);
    match p.failure() {
        Some(PipelineError::Render(e)) => assert_eq!(e.template_path(), "x/a.css.tmp.tpl"),
        other => panic!("{:?}", other),
    }
}

#[test]
fn a_dry_run_writes_nothing_and_so_goes_on_where_files_would_clash() {
    let c = config(vec![
        app("a", true, "x/a.css", ReloadSignal::Nothing),
        app("shadow", true, "x/a.css.tmp", ReloadSignal::Nothing),
    ]);
    let mut p = DeploymentPipeline::new(&c, "/c", true);
    assert!(p.is_wf());
    assert_eq!(
        drive(&mut p, None),
        vec![
            "render x/a.css.tpl",
            "render x/a.css.tmp.tpl",
            "print x/a.css <x/a.css.tpl>",
            "print x/a.css.tmp <x/a.css.tmp.tpl>",
            "finish",
        ]
    );
    assert_eq!(p.stage(), Stage::DryRunDone);
}

#[test]
fn files_hold_their_own_texts_after_a_deployment() {
    let c = config(vec![
        app("a-css", true, "x/a.css", ReloadSignal::Nothing),
        app("off", false, "x/old", ReloadSignal::Nothing),
        app("a-json", true, "x/a.json", ReloadSignal::Nothing),
        app("a-plain", true, "x/a", ReloadSignal::Nothing),
    ]);
    let mut files = std::collections::BTreeMap::new();
    files.insert("/c/x/old".to_string(), "kept".to_string());
    files.insert("/c/x/a".to_string(), "before".to_string());
    let mut p = DeploymentPipeline::new(&c, "/c", false);
    loop {
        let outcome = match p.next_action() {
            Action::Finish => break,
            Action::Render { template_path } => Outcome::Rendered(format!("<{}>", template_path)),
            Action::WriteTemp { temp_path, content } => {
                files.insert(temp_path, content);
                Outcome::Succeeded
            }
            Action::Rename { temp_path, final_path } => match files.remove(&temp_path) {
                Some(text) => {
                    files.insert(final_path, text);
                    Outcome::Succeeded
                }
                None => Outcome::Failed("no such file".to_string()),
            },
            _ => Outcome::Succeeded,
        };
        p.record(outcome);
    }
    assert_eq!(p.stage(), Stage::Done);
    let held: Vec<(String, String)> = files.into_iter().collect();
    let want: Vec<(String, String)> = [
        ("/c/x/a", "<x/a.tpl>"),
        ("/c/x/a.css", "<x/a.css.tpl>"),
        ("/c/x/a.json", "<x/a.json.tpl>"),
        ("/c/x/old", "kept"),
    ]
    .iter()
    .map(|(p, t)| (p.to_string(), t.to_string()))
    .collect();
    assert_eq!(held, want);
}
