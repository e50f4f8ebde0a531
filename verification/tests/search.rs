use its_hub_rs::search::{next_beams, particle_count, resample, step_weights, Particle, Path};
use its_hub_rs::step_generation::{StepGeneration, StepToken};

fn strings(vals: &[&str]) -> Vec<String> {
    vals.iter().map(|v| v.to_string()).collect()
}

#[test]
fn test_path_creation() {
    let path: Path<f64> = Path::new(0.0);
    assert!(path.steps.is_empty());
    assert!(!path.is_stopped);
    assert!((path.score - 0.0).abs() < f64::EPSILON);
}

#[test]
fn test_path_deepcopy() {
    let original_steps = strings(&["a", "b", "c"]);
    let path: Path<f64> = Path { steps: original_steps.clone(), is_stopped: false, score: 1.0 };
    let mut copied = path.deepcopy();
    copied.steps.push("d".to_string());

    assert_eq!(path.steps, original_steps);
    assert_eq!(copied.steps.len(), 4);
    assert!(!copied.is_stopped);
    assert!((copied.score - 1.0).abs() < f64::EPSILON);
}

#[test]
fn test_path_deepcopy_independence() {
    let path: Path<f64> = Path { steps: strings(&["step1"]), is_stopped: true, score: 0.5 };
    let copy = path.deepcopy();

    assert_eq!(copy.steps, strings(&["step1"]));
    assert!(copy.is_stopped);
    assert!((copy.score - 0.5).abs() < f64::EPSILON);
}

#[test]
fn test_particle_init_and_clone() {
    let p: Particle<f64> = Particle { steps: strings(&["a", "b", "c"]), is_stopped: false, partial_log_weights: vec![0.3, 0.6, 1.0] };
    let copy = p.deepcopy();

    assert_eq!(copy.steps, vec!["a", "b", "c"]);
    assert!(!copy.is_stopped);
    assert!((copy.log_weight(0.0) - 1.0).abs() < f64::EPSILON);
    assert_eq!(copy.partial_log_weights, vec![0.3, 0.6, 1.0]);

    let mut p2 = p.deepcopy();
    p2.steps.push("d".to_string());
    p2.partial_log_weights.push(1.2);
    assert_eq!(p.steps.len(), 3);
    assert_eq!(p.partial_log_weights.len(), 3);
}

#[test]
fn test_particle_default_log_weight() {
    let p: Particle<f64> = Particle::new();
    assert!((p.log_weight(0.0) - 0.0).abs() < f64::EPSILON);
}

fn generation(max_steps: u32) -> StepGeneration<f64> {
    StepGeneration::with_step_token(StepToken::Single("\n".to_string()), max_steps, Some("END".to_string()), 0.8, false, None)
}

#[test]
fn take_step_stops_at_the_final_step_or_the_step_limit() {
    let sg = generation(2);
    let mut p: Particle<f64> = Particle::new();
    p.take_step(&sg, "one".to_string(), false);
    assert_eq!(p.steps, vec!["one"]);
    assert!(!p.is_stopped);
    p.take_step(&sg, "two".to_string(), false);
    assert!(p.is_stopped);

    let mut b: Path<u32> = Path::new(7);
    b.take_step(&sg, "END".to_string(), true);
    assert!(b.is_stopped);
    assert_eq!(b.score, 7);
}

#[test]
fn particle_count_divides_the_budget() {
    assert_eq!(particle_count(8, 2), Ok(4));
    assert_eq!(particle_count(8, 1), Ok(8));
    assert_eq!(particle_count(7, 2), Err("budget must be divisible by num_iterations".to_string()));
    assert_eq!(particle_count(7, 0), Err("budget must be divisible by num_iterations".to_string()));
}

#[test]
fn step_weights_take_the_weight_of_the_current_step() {
    let running = Particle { steps: strings(&["a", "b"]), is_stopped: false, partial_log_weights: vec![0.1, 0.2] };
    let stopped = Particle { steps: strings(&["a", "b"]), is_stopped: true, partial_log_weights: vec![0.3, 0.4] };
    let fresh: Particle<f64> = Particle::new();
    let ps = vec![running, stopped, fresh];
    assert_eq!(step_weights(&ps, 1, 0.0), vec![0.1, 0.4, 0.0]);
    assert_eq!(step_weights(&ps, 2, 0.0), vec![0.2, 0.4, 0.0]);
    assert_eq!(step_weights(&ps, 3, -1.0), vec![0.2, 0.4, -1.0]);
}

#[test]
fn resampling_cuts_particles_back_to_the_current_step() {
    let long = Particle { steps: strings(&["a", "b", "c"]), is_stopped: true, partial_log_weights: vec![1, 2, 3] };
    let short = Particle { steps: strings(&["x"]), is_stopped: true, partial_log_weights: vec![9] };
    let ps = vec![long, short];
    let r = resample(&ps, &vec![0, 1, 0], 2);
    assert_eq!(r.len(), 3);
    assert_eq!(r[0].steps, vec!["a", "b"]);
    assert_eq!(r[0].partial_log_weights, vec![1, 2]);
    assert!(!r[0].is_stopped);
    assert_eq!(r[1].steps, vec!["x"]);
    assert!(r[1].is_stopped);
    assert_eq!(r[2].steps, vec!["a", "b"]);
    assert_eq!(ps[0].steps.len(), 3);
}

#[test]
fn next_beams_repeat_the_best_beams() {
    let ranked = vec![
        Path { steps: strings(&["best"]), is_stopped: false, score: 3 },
        Path { steps: strings(&["second"]), is_stopped: true, score: 2 },
        Path { steps: strings(&["third"]), is_stopped: false, score: 1 },
    ];
    let next = next_beams(&ranked, 2, 3);
    assert_eq!(next.len(), 6);
    let firsts: Vec<&str> = next.iter().map(|p| p.steps[0].as_str()).collect();
    assert_eq!(firsts, vec!["best", "second", "best", "second", "best", "second"]);
    assert_eq!(next[3].score, 2);
    assert!(next[3].is_stopped);

    let fewer = next_beams(&ranked[..1].to_vec(), 2, 2);
    assert_eq!(fewer.len(), 2);
}
