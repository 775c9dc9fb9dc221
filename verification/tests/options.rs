use weighted_code_coverage::runner::{default_n_threads, limit_n_threads};
use weighted_code_coverage::{
    Complexity, Error, GrcovFile, GrcovFormat, Mode, Sort, Thresholds, WccRunner,
};

#[test]
fn all_options_are_listed() {
    assert_eq!(GrcovFormat::all(), &["coveralls", "covdir"]);
    assert_eq!(Mode::all(), &["files", "functions"]);
    assert_eq!(Sort::all(), &["wcc", "crap", "skunk"]);
}

#[test]
fn default_values() {
    assert_eq!(Mode::default_value(), "files");
    assert_eq!(Sort::default_value(), "wcc");
    assert_eq!(Mode::default(), Mode::Files);
    assert_eq!(Sort::default(), Sort::Wcc);
    assert_eq!(Complexity::default(), Complexity::Cyclomatic);
    assert_eq!(Mode::from_str(Mode::default_value()), Some(Mode::default()));
    assert_eq!(Sort::from_str(Sort::default_value()), Some(Sort::default()));
}

#[test]
fn options_are_read_from_their_names() {
    assert_eq!(GrcovFormat::from_str("coveralls"), Some(GrcovFormat::Coveralls));
    assert_eq!(GrcovFormat::from_str("covdir"), Some(GrcovFormat::Covdir));
    assert_eq!(GrcovFormat::from_str("lcov"), None);
    assert_eq!(Mode::from_str("files"), Some(Mode::Files));
    assert_eq!(Mode::from_str("functions"), Some(Mode::Functions));
    assert_eq!(Mode::from_str("Files"), None);
    assert_eq!(Sort::from_str("wcc"), Some(Sort::Wcc));
    assert_eq!(Sort::from_str("crap"), Some(Sort::Crap));
    assert_eq!(Sort::from_str("skunk"), Some(Sort::Skunk));
    assert_eq!(Sort::from_str(""), None);
}

#[test]
fn options_have_their_names() {
    for name in GrcovFormat::all() {
        assert_eq!(GrcovFormat::from_str(name).unwrap().as_str(), *name);
    }
    for name in Mode::all() {
        assert_eq!(Mode::from_str(name).unwrap().as_str(), *name);
    }
    for name in Sort::all() {
        assert_eq!(Sort::from_str(name).unwrap().as_str(), *name);
    }
}

#[test]
fn report_file_has_its_format() {
    assert_eq!(GrcovFile::Coveralls("a.json").format(), GrcovFormat::Coveralls);
    assert_eq!(GrcovFile::Covdir("b.json").format(), GrcovFormat::Covdir);
}

#[test]
fn default_thresholds() {
    let thresholds = Thresholds::default();
    assert_eq!(thresholds.wcc(), 6000);
    assert_eq!(thresholds.cyclomatic_complexity(), 1000);
    assert_eq!(thresholds.cognitive_complexity(), 1000);
}

#[test]
fn one_thread_is_left_to_the_program() {
    assert_eq!(default_n_threads(0), 1);
    assert_eq!(default_n_threads(1), 1);
    assert_eq!(default_n_threads(2), 1);
    assert_eq!(default_n_threads(8), 7);
    assert_eq!(limit_n_threads(8, 3), 3);
    assert_eq!(limit_n_threads(8, 7), 7);
    assert_eq!(limit_n_threads(8, 100), 7);
    assert_eq!(limit_n_threads(1, 4), 1);
    assert_eq!(limit_n_threads(4, 0), 0);
}

#[test]
fn runner_is_configured_step_by_step() {
    let runner = WccRunner::new();
    assert!(runner.workers() >= 1);
    assert!(runner.html_output().is_none());
    let worker = runner.worker();
    assert_eq!(worker.mode, Mode::Files);
    assert_eq!(worker.sort_by, Sort::Wcc);
    assert_eq!(worker.metrics_thresholds.crap_cyclomatic, 1640);
    assert_eq!(worker.metrics_thresholds.skunk_cyclomatic, 1666);

    let runner = WccRunner::default()
        .thresholds(Thresholds::new(3500, 1500, 3000).unwrap())
        .n_threads(1)
        .mode(Mode::Functions)
        .sort_by(Sort::Skunk)
        .html_path("out/html");
    assert_eq!(runner.workers(), 1);
    assert_eq!(runner.html_output(), Some(&"out/html".to_string()));
    assert_eq!(runner.limits().wcc, 3500);
    assert_eq!(runner.limits().crap_cyclomatic, 2940);
    assert_eq!(runner.limits().skunk_cognitive, 5000);
    let worker = runner.worker();
    assert_eq!(worker.mode, Mode::Functions);
    assert_eq!(worker.sort_by, Sort::Skunk);
    assert_eq!(worker.metrics_thresholds, runner.limits());
    assert!(worker.files_metrics.is_empty());
}

#[test]
fn errors_have_messages() {
    assert_eq!(Error::Metrics.message(), "Error while computing Metrics");
    assert_eq!(Error::Conversion.message(), "Error while converting JSON value to a type");
    assert_eq!(Error::Language.message(), "Error while guessing language");
    assert_eq!(Error::WrongFile.message(), "Error while reading Files from project folder");
    assert_eq!(
        Error::OutputPath("Json output path must be a json file").message(),
        "Json output path must be a json file"
    );
}
