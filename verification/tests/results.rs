use move_scanner::cli::parser::Args;
use move_scanner::scanner::detector::Detector;
use move_scanner::scanner::detectors::Detectors;
use move_scanner::scanner::option::{Options, TerminalFormat};
use move_scanner::scanner::printer::Printer;
use move_scanner::scanner::result::{
    DetectContent, DetectKind, FunctionCount, FunctionType, ModuleInfo, ModulesStatus, Result,
    Severity, Status,
};
use move_scanner::utils::result_format::{Detection_Results, Module_Details};

fn args() -> Args {
    Args { path: "in".to_string(), output: None, none: false, json: true, ir_type: None }
}

fn texts(v: &[&str]) -> Vec<String> {
    v.iter().map(|s| s.to_string()).collect()
}

#[test]
fn kinds_have_places_and_names() {
    let all = DetectKind::all();
    assert_eq!(all.len(), 9);
    for (i, kind) in all.iter().enumerate() {
        assert_eq!(kind.index(), i);
    }
    let names: Vec<String> = all.iter().map(|k| k.name()).collect();
    assert_eq!(
        names,
        texts(&[
            "unchecked_return",
            "overflow",
            "precision_loss",
            "infinite_loop",
            "unnecessary_type_conversion",
            "unnecessary_bool_judgment",
            "unused_constant",
            "unused_private_functions",
            "recursive_function_call",
        ])
    );
    assert_eq!(Status::Pass.name(), "pass");
    assert_eq!(Status::Wrong.name(), "wrong");
}

#[test]
fn new_content_holds_nothing() {
    let content = DetectContent::new(Severity::Major, DetectKind::Overflow);
    assert_eq!(content.severity, Severity::Major);
    assert_eq!(content.kind, DetectKind::Overflow);
    assert!(content.result.is_empty());
}

#[test]
fn content_keeps_one_list_for_each_module() {
    let mut content = DetectContent::new(Severity::Minor, DetectKind::Overflow);
    content.insert("a".to_string());
    content.insert("b".to_string());
    assert_eq!(content.find(&"a".to_string()), Some(0));
    assert_eq!(content.find(&"b".to_string()), Some(1));
    assert_eq!(content.find(&"c".to_string()), None);
    content.push(0, "f".to_string());
    content.push(0, "g".to_string());
    content.push(1, "h".to_string());
    assert_eq!(
        content.result,
        vec![("a".to_string(), texts(&["f", "g"])), ("b".to_string(), texts(&["h"]))]
    );
    content.insert("a".to_string());
    assert_eq!(
        content.result,
        vec![("a".to_string(), texts(&[])), ("b".to_string(), texts(&["h"]))]
    );
}

#[test]
fn empty_module_has_a_list_for_each_kind() {
    let info = ModuleInfo::empty();
    assert_eq!(info.status, Status::Wrong);
    assert_eq!(info.location, None);
    assert_eq!(info.function_count, FunctionCount { all: 0, native: 0 });
    assert_eq!(info.function_count.get(FunctionType::All), 0);
    assert_eq!(info.function_count.get(FunctionType::Native), 0);
    assert_eq!(info.constant_count, 0);
    assert_eq!(info.detectors.len(), 9);
    assert!(info.detectors.iter().all(|list| list.is_empty()));
    assert!(info.check_clean());
    assert!(info.get(DetectKind::RecursiveFunctionCall).is_empty());
}

#[test]
fn module_is_built_from_its_parts() {
    let mut detectors = vec![Vec::new(); 9];
    detectors[1] = texts(&["f"]);
    let info = ModuleInfo::new(
        Status::Pass,
        Some("here".to_string()),
        FunctionCount { all: 3, native: 1 },
        2,
        detectors.clone(),
    );
    assert_eq!(info.status, Status::Pass);
    assert_eq!(info.location, Some("here".to_string()));
    assert_eq!(info.function_count.get(FunctionType::All), 3);
    assert_eq!(info.function_count.get(FunctionType::Native), 1);
    assert_eq!(info.constant_count, 2);
    assert_eq!(info.detectors, detectors);
    assert!(!info.check_clean());
    assert_eq!(info.get(DetectKind::Overflow), &texts(&["f"]));
}

#[test]
fn result_keeps_modules_in_the_order_of_their_arrival() {
    let mut result = Result::empty();
    assert_eq!(result.total_time, 0);
    assert!(result.modules.is_empty());
    assert!(result.modules_status.pass.is_empty());
    assert!(result.modules_status.wrong.is_empty());
    result.add_module("b".to_string(), ModuleInfo::empty());
    result.add_module("a".to_string(), ModuleInfo::empty());
    assert_eq!(result.find(&"b".to_string()), Some(0));
    assert_eq!(result.find(&"a".to_string()), Some(1));
    assert_eq!(result.find(&"c".to_string()), None);
    let mut other = ModuleInfo::empty();
    other.constant_count = 9;
    result.add_module("b".to_string(), other);
    assert_eq!(result.modules.len(), 2);
    assert_eq!(result.modules[0].0, "b");
    assert_eq!(result.modules[0].1.constant_count, 9);
    assert_eq!(result.modules[1].0, "a");
}

#[test]
fn result_is_built_from_its_parts() {
    let status = ModulesStatus { pass: texts(&["a"]), wrong: texts(&["b"]) };
    let result = Result::new(status, 5, vec![("a".to_string(), ModuleInfo::empty())]);
    assert_eq!(result.total_time, 5);
    assert_eq!(result.modules.len(), 1);
    assert_eq!(result.modules_status.get(Status::Pass), &texts(&["a"]));
    assert_eq!(result.modules_status.get(Status::Wrong), &texts(&["b"]));
}

#[test]
fn findings_are_merged_by_module_and_kind() {
    let mut suite = Detectors::new(args());
    assert_eq!(suite.args.path, "in");
    assert!(suite.result.modules.is_empty());
    suite.result.add_module("a".to_string(), ModuleInfo::empty());
    suite.result.add_module("b".to_string(), ModuleInfo::empty());
    suite.result.add_module("c".to_string(), ModuleInfo::empty());
    let mut overflow = DetectContent::new(Severity::Minor, DetectKind::Overflow);
    overflow.insert("a".to_string());
    overflow.insert("b".to_string());
    overflow.push(0, "f".to_string());
    overflow.push(0, "g".to_string());
    let mut unused = DetectContent::new(Severity::Minor, DetectKind::UnusedConstant);
    unused.insert("b".to_string());
    unused.push(0, "U8(1)".to_string());
    suite.merge_result(&overflow);
    suite.merge_result(&unused);
    suite.complete_result(42);
    let result = &suite.result;
    assert_eq!(result.total_time, 42);
    assert_eq!(result.modules[0].1.get(DetectKind::Overflow), &texts(&["f", "g"]));
    assert!(result.modules[0].1.get(DetectKind::UnusedConstant).is_empty());
    assert!(result.modules[1].1.get(DetectKind::Overflow).is_empty());
    assert_eq!(result.modules[1].1.get(DetectKind::UnusedConstant), &texts(&["U8(1)"]));
    assert_eq!(result.modules[0].1.status, Status::Wrong);
    assert_eq!(result.modules[1].1.status, Status::Wrong);
    assert_eq!(result.modules[2].1.status, Status::Pass);
    assert_eq!(result.modules_status.pass, texts(&["c"]));
    assert_eq!(result.modules_status.wrong, texts(&["a", "b"]));
    for (_, info) in result.modules.iter() {
        let findings: usize = info.detectors.iter().map(|list| list.len()).sum();
        assert_eq!(info.status == Status::Pass, findings == 0);
    }
}

#[test]
fn new_run_has_an_empty_result() {
    let run = Detector::new(args());
    assert_eq!(run.args.path, "in");
    assert!(run.args.json);
    assert!(run.result.modules.is_empty());
    assert_eq!(run.result.total_time, 0);
}

#[test]
fn run_without_modules_reports_nothing() {
    let mut run = Detector::new(args());
    assert!(run.run(&vec![], 3));
    assert!(run.result.modules.is_empty());
    assert_eq!(run.result.total_time, 3);
    assert_eq!(run.args.path, "in");
}

#[test]
fn printer_keeps_its_options() {
    let options = Options {
        sources_path: None,
        bytecode_path: "in".to_string(),
        output_path: "out".to_string(),
        terminal_format: Options::terminal_format_of(true),
        ir_type: None,
    };
    let printer = Printer::new(options);
    assert_eq!(printer.options.bytecode_path, "in");
    assert_eq!(printer.options.output_path, "out");
    assert_eq!(printer.options.terminal_format, TerminalFormat::Quiet);
    assert_eq!(Options::terminal_format_of(false), TerminalFormat::Block);
}

#[test]
fn older_report_starts_empty() {
    let details = Module_Details::new();
    assert_eq!(details.time, 0);
    assert_eq!(details.function_counts, 0);
    assert_eq!(details.native_function_counts, 0);
    assert!(details.functions.is_empty());
    let names: Vec<&str> = details.detect_result.iter().map(|e| e.0.as_str()).collect();
    assert_eq!(
        names,
        vec![
            "Infinite_Loop",
            "Overflow",
            "Precision_Loss",
            "Unchecked_return",
            "Unnecessary_Bool_Judgment",
            "Unnecessary_Type_Conversion",
            "Unused_Constant",
            "Unused_Private_Functions",
        ]
    );
    assert!(details.detect_result.iter().all(|e| e.1.is_empty()));
    let results = Detection_Results::new();
    assert_eq!(results.modules_count, 0);
    assert_eq!(results.failed_modules_count, 0);
    assert_eq!(results.total_time, 0);
    assert!(results.modules.is_empty());
}
