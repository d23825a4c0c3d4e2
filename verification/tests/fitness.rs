use competeevolve::config::FitnessConfig;
use competeevolve::fitness::{
    is_valid, performance_terms, reward_for_position, term_counts, Baseline,
};
use competeevolve::harness::HarnessResult;
use competeevolve::json::Json;
use competeevolve::measure::Measure;

fn measure(x: f64) -> Measure {
    Measure::from_bits(x.to_bits()).unwrap()
}

fn double(m: Measure) -> f64 {
    f64::from_bits(m.to_bits())
}

fn result(quality: f64, time: f64) -> HarnessResult {
    HarnessResult {
        status: "ok".to_string(),
        syntax_error: None,
        runtime_errors: vec![],
        n_folds_total: 6,
        n_folds_ok: 6,
        fit_time: Some(measure(time)),
        predict_time: Some(measure(0.0)),
        quality: Some(measure(quality)),
        quality_std: Some(measure(0.0)),
        per_dataset: Json::Null,
        code_length: 0,
    }
}

fn baseline() -> Baseline {
    Baseline { quality: measure(0.9), time: measure(1.0) }
}

fn performance(r: &HarnessResult, base: &Baseline, w: &FitnessConfig) -> f64 {
    let Some(t) = performance_terms(r) else {
        return 0.0;
    };
    let time = double(t.fit_time) + double(t.predict_time);
    let reliability = t.folds_ok as f64 / t.folds_total as f64;
    let quality_ratio = (double(t.quality) / double(base.quality).max(1e-9)).max(0.0);
    let speed_ratio = double(base.time).max(1e-6) / time.max(1e-6);
    2f64.powi(-(t.errors as i32))
        * reliability
        * quality_ratio.powf(double(w.quality_exponent))
        * speed_ratio.powf(double(w.speed_exponent))
}

fn valid(r: &HarnessResult, base: &Baseline, w: &FitnessConfig) -> bool {
    is_valid(r, measure(double(base.quality) - double(w.quality_tolerance)))
}

#[test]
fn faster_equally_accurate_beats_baseline() {
    let cfg = FitnessConfig::default();
    let base = baseline();
    let same = performance(&result(0.9, 1.0), &base, &cfg);
    let faster = performance(&result(0.9, 0.5), &base, &cfg);
    let slower = performance(&result(0.9, 2.0), &base, &cfg);
    assert!((same - 1.0).abs() < 1e-9);
    assert!(faster > same, "2x speedup must score higher");
    assert!(slower < same, "2x slowdown must score lower");
}

#[test]
fn accuracy_loss_is_expensive() {
    let cfg = FitnessConfig::default();
    let base = baseline();
    let fast_lossy = performance(&result(0.81, 0.1), &base, &cfg);
    let modest = performance(&result(0.9, 0.5), &base, &cfg);
    assert!(!valid(&result(0.81, 0.1), &base, &cfg));
    assert!(valid(&result(0.9, 0.5), &base, &cfg));
    assert!(modest > fast_lossy * 0.3, "valid modest gain must remain competitive");
}

#[test]
fn errors_penalise_and_invalidate() {
    let cfg = FitnessConfig::default();
    let base = baseline();
    let mut r = result(0.9, 0.5);
    r.runtime_errors.push("boom".to_string());
    r.n_folds_ok = 3;
    let p = performance(&r, &base, &cfg);
    assert!(p < performance(&result(0.9, 0.5), &base, &cfg) / 2.0);
    assert!(!valid(&r, &base, &cfg));
    assert_eq!(
        performance(&HarnessResult::failed("timeout", "x".to_string()), &base, &cfg),
        0.0
    );
}

fn embed(code: &str) -> Vec<f64> {
    let counts = term_counts(code);
    let norm = counts.iter().map(|c| (c * c) as f64).sum::<f64>().sqrt();
    counts.iter().map(|c| if norm > 0.0 { *c as f64 / norm } else { 0.0 }).collect()
}

fn cosine(a: &[f64], b: &[f64]) -> f64 {
    a.iter().zip(b).map(|(x, y)| x * y).sum::<f64>().clamp(-1.0, 1.0)
}

fn novelty(similarities: &[f64]) -> f64 {
    if similarities.is_empty() {
        return 1.0;
    }
    let mean = similarities.iter().sum::<f64>() / similarities.len() as f64;
    (1.0 - mean).clamp(0.0, 1.0)
}

#[test]
fn verbatim_copy_has_zero_novelty() {
    let code = "class Model:\n    def fit(self, X, y):\n        return self\n";
    let e = embed(code);
    let sim = cosine(&e, &embed(code));
    assert!(sim > 0.999);
    assert!(novelty(&[sim]) < 1e-3);
    let other = "def totally_different(a, b):\n    return a * b + 42\n";
    assert!(cosine(&e, &embed(other)) < 0.5);
    assert!(novelty(&[]) == 1.0);
}

#[test]
fn best_agent_is_rewarded() {
    assert_eq!(reward_for_position(1, 3), 1);
    assert_eq!(reward_for_position(2, 3), 1);
    assert_eq!(reward_for_position(3, 3), 0);
    assert_eq!(reward_for_position(1, 1), 1);
    assert_eq!(reward_for_position(2, 2), 0);
    assert_eq!(reward_for_position(3, 4), 0);
}

#[test]
fn reward_has_a_lower_and_an_upper_end() {
    assert_eq!(reward_for_position(0, 3), 0);
    assert_eq!(reward_for_position(1, 0), 1);
    assert_eq!(reward_for_position(3, 5), 1);
    assert_eq!(reward_for_position(4, 5), 0);
    assert_eq!(reward_for_position(usize::MAX, usize::MAX), 0);
}

#[test]
fn validity_needs_every_condition() {
    let floor = measure(0.5);
    assert!(is_valid(&result(0.5, 1.0), floor));
    let mut r = result(0.9, 1.0);
    r.status = "timeout".to_string();
    assert!(!is_valid(&r, floor));
    let mut r = result(0.9, 1.0);
    r.syntax_error = Some("e".to_string());
    assert!(!is_valid(&r, floor));
    let mut r = result(0.9, 1.0);
    r.n_folds_ok = 5;
    assert!(!is_valid(&r, floor));
    let mut r = result(0.9, 1.0);
    r.n_folds_ok = 0;
    r.n_folds_total = 0;
    assert!(!is_valid(&r, floor));
    let mut r = result(0.9, 1.0);
    r.quality = None;
    assert!(!is_valid(&r, floor));
    // Times do not count for validity.
    let mut r = result(0.9, 1.0);
    r.fit_time = None;
    assert!(is_valid(&r, floor));
    assert!(performance_terms(&r).is_none());
}

#[test]
fn performance_needs_a_fold_that_ran() {
    let mut r = result(0.9, 1.0);
    r.n_folds_ok = 0;
    assert!(performance_terms(&r).is_none());
    r.n_folds_ok = 2;
    r.runtime_errors.push("e".to_string());
    r.syntax_error = Some("s".to_string());
    let t = performance_terms(&r).unwrap();
    assert_eq!((t.folds_ok, t.folds_total, t.errors), (2, 6, 2));
    assert_eq!(t.quality, measure(0.9));
    assert_eq!(t.fit_time, measure(1.0));
    assert_eq!(t.predict_time, measure(0.0));
}

#[test]
fn failed_runs_count_for_nothing() {
    let r = HarnessResult::failed("ok", "killed".to_string());
    assert!(!is_valid(&r, measure(-1.0)));
    assert!(performance_terms(&r).is_none());
}
