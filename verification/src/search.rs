//! Bookkeeping of step-wise search: the beams of beam search and the
//! particles of particle filtering. Scores and log weights are of any
//! copyable type; computing, comparing and normalizing them is the
//! caller's part.

use vstd::prelude::*;
use crate::step_generation::StepGeneration;
use crate::text::{copy_strings, strings_view};

verus! {

/// How the final response of particle filtering is chosen.
#[derive(Debug, Clone, Copy, PartialEq, Eq, Structural)]
pub enum SelectionMethod {
    /// Drawn at random by weight.
    Sample,
    /// The highest weight.
    Argmax,
}

/// How particles are redrawn by weight between steps.
#[derive(Debug, Clone, Copy, PartialEq, Eq, Structural)]
pub enum ResamplingMethod {
    /// Evenly spaced draws with one random offset.
    Systematic,
    /// Independent draws.
    Multinomial,
}

/// A beam: the steps taken, whether it stopped, and its score.
#[derive(Debug, Clone)]
pub struct Path<T> {
    pub steps: Vec<String>,
    pub is_stopped: bool,
    pub score: T,
}

/// The mathematical value of a beam.
pub open spec fn path_view<T>(p: Path<T>) -> (Seq<Seq<char>>, bool, T) {
    (strings_view(p.steps@), p.is_stopped, p.score)
}

impl<T: Copy> Path<T> {
    /// A beam that took no step yet.
    pub fn new(initial_score: T) -> (r: Path<T>)
        ensures
            r.steps@.len() == 0,
            !r.is_stopped,
            r.score == initial_score,
    {
        Path { steps: Vec::new(), is_stopped: false, score: initial_score }
    }

    /// An independent copy.
    pub fn deepcopy(&self) -> (r: Path<T>)
        ensures
            path_view(r) == path_view(*self),
    {
        Path { steps: copy_strings(&self.steps), is_stopped: self.is_stopped, score: self.score }
    }

    /// Takes a step: it is appended, and the beam stops when the step was
    /// final or the beam reached the most steps.
    pub fn take_step<U: Copy>(&mut self, sg: &StepGeneration<U>, step: String, step_was_final: bool)
        ensures
            final(self).steps@ == old(self).steps@.push(step),
            final(self).is_stopped == (step_was_final || final(self).steps@.len() >= sg.max_steps),
            final(self).score == old(self).score,
    {
        self.steps.push(step);
        self.is_stopped = sg.path_stops(self.steps.len(), step_was_final);
    }
}

/// A particle: the steps taken, whether it stopped, and the log weight
/// after each step.
#[derive(Debug, Clone)]
pub struct Particle<T> {
    pub steps: Vec<String>,
    pub is_stopped: bool,
    pub partial_log_weights: Vec<T>,
}

/// The mathematical value of a particle.
pub open spec fn particle_view<T>(p: Particle<T>) -> (Seq<Seq<char>>, bool, Seq<T>) {
    (strings_view(p.steps@), p.is_stopped, p.partial_log_weights@)
}

/// The latest log weight, or `default` before the first step.
pub open spec fn latest_weight<T>(p: Particle<T>, default: T) -> T {
    if p.partial_log_weights@.len() > 0 {
        p.partial_log_weights@.last()
    } else {
        default
    }
}

fn copy_values<T: Copy>(v: &Vec<T>, n: usize) -> (r: Vec<T>)
    requires
        n <= v@.len(),
    ensures
        r@ == v@.take(n as int),
{
    let mut r: Vec<T> = Vec::new();
    let mut i: usize = 0;
    while i < n
        invariant
            i <= n <= v@.len(),
            r@ == v@.take(i as int),
        decreases n - i,
    {
        r.push(v[i]);
        assert(v@.take(i + 1) =~= v@.take(i as int).push(v@[i as int]));
        i = i + 1;
    }
    r
}

fn copy_prefix(v: &Vec<String>, n: usize) -> (r: Vec<String>)
    requires
        n <= v@.len(),
    ensures
        strings_view(r@) == strings_view(v@).take(n as int),
{
    let mut r: Vec<String> = Vec::new();
    let mut i: usize = 0;
    while i < n
        invariant
            i <= n <= v@.len(),
            r@.len() == i,
            forall|k: int| 0 <= k < i ==> (#[trigger] r@[k])@ == v@[k]@,
        decreases n - i,
    {
        r.push(v[i].clone());
        i = i + 1;
    }
    assert(strings_view(r@) =~= strings_view(v@).take(n as int));
    r
}

impl<T: Copy> Particle<T> {
    /// A particle that took no step yet.
    pub fn new() -> (r: Particle<T>)
        ensures
            r.steps@.len() == 0,
            !r.is_stopped,
            r.partial_log_weights@.len() == 0,
    {
        Particle { steps: Vec::new(), is_stopped: false, partial_log_weights: Vec::new() }
    }

    /// The latest log weight, or `default` before the first step.
    pub fn log_weight(&self, default: T) -> (r: T)
        ensures
            r == latest_weight(*self, default),
    {
        let n = self.partial_log_weights.len();
        if n > 0 {
            self.partial_log_weights[n - 1]
        } else {
            default
        }
    }

    /// An independent copy.
    pub fn deepcopy(&self) -> (r: Particle<T>)
        ensures
            particle_view(r) == particle_view(*self),
    {
        let weights = copy_values(&self.partial_log_weights, self.partial_log_weights.len());
        assert(self.partial_log_weights@.take(self.partial_log_weights@.len() as int) =~= self.partial_log_weights@);
        Particle { steps: copy_strings(&self.steps), is_stopped: self.is_stopped, partial_log_weights: weights }
    }

    /// Takes a step: it is appended, and the particle stops when the step
    /// was final or the particle reached the most steps.
    pub fn take_step<U: Copy>(&mut self, sg: &StepGeneration<U>, step: String, step_was_final: bool)
        ensures
            final(self).steps@ == old(self).steps@.push(step),
            final(self).is_stopped == (step_was_final || final(self).steps@.len() >= sg.max_steps),
            final(self).partial_log_weights@ == old(self).partial_log_weights@,
    {
        self.steps.push(step);
        self.is_stopped = sg.path_stops(self.steps.len(), step_was_final);
    }
}

impl<T: Copy> Default for Particle<T> {
    fn default() -> (r: Particle<T>)
        ensures
            r.steps@.len() == 0,
            !r.is_stopped,
            r.partial_log_weights@.len() == 0,
    {
        Particle::new()
    }
}

/// The number of particles of each iteration: the budget divided by the
/// number of iterations, which must divide it.
pub fn particle_count(budget: u32, num_iterations: usize) -> (r: Result<usize, String>)
    requires
        num_iterations > 0 || budget > 0,
    ensures
        match r {
            Ok(n) => num_iterations > 0 && (budget as int) % (num_iterations as int) == 0 && n == (budget as int) / (
            num_iterations as int),
            Err(m) => (num_iterations == 0 || (budget as int) % (num_iterations as int) != 0) && m@
                == "budget must be divisible by num_iterations"@,
        },
{
    let b = budget as usize;
    if num_iterations == 0 || b % num_iterations != 0 {
        return Err(crate::text::owned("budget must be divisible by num_iterations"));
    }
    Ok(b / num_iterations)
}

/// The weight a particle is resampled by after `step` steps of the
/// iteration: its latest once it stopped; otherwise its weight after that
/// step when it has one, else its latest.
pub open spec fn weight_at<T>(p: Particle<T>, step: int, default: T) -> T {
    if !p.is_stopped && 0 < step <= p.partial_log_weights@.len() {
        p.partial_log_weights@[step - 1]
    } else {
        latest_weight(p, default)
    }
}

/// The weight of each particle after `step` steps (see [`weight_at`]).
pub fn step_weights<T: Copy>(particles: &Vec<Particle<T>>, step: usize, default: T) -> (r: Vec<T>)
    ensures
        r@.len() == particles@.len(),
        forall|i: int| 0 <= i < r@.len() ==> #[trigger] r@[i] == weight_at(particles@[i], step as int, default),
{
    let mut r: Vec<T> = Vec::new();
    let mut i: usize = 0;
    while i < particles.len()
        invariant
            i <= particles@.len(),
            r@.len() == i,
            forall|k: int| 0 <= k < i ==> #[trigger] r@[k] == weight_at(particles@[k], step as int, default),
        decreases particles@.len() - i,
    {
        let p = &particles[i];
        let w = if !p.is_stopped && step > 0 && step <= p.partial_log_weights.len() {
            p.partial_log_weights[step - 1]
        } else {
            p.log_weight(default)
        };
        r.push(w);
        i = i + 1;
    }
    r
}

/// The first `n` items, or all when there are fewer.
pub open spec fn cut<A>(s: Seq<A>, n: int) -> Seq<A> {
    if s.len() > n {
        s.take(n)
    } else {
        s
    }
}

/// A particle as resampled after `step` steps: when it took more, its steps
/// and weights are cut back to the first `step` and it runs on.
pub open spec fn cut_back<T>(p: Particle<T>, step: int) -> (Seq<Seq<char>>, bool, Seq<T>) {
    if p.steps@.len() > step {
        (strings_view(p.steps@).take(step), false, cut(p.partial_log_weights@, step))
    } else {
        particle_view(p)
    }
}

/// Resampling never extends a particle: its steps become a prefix of what
/// it had, of at most `step` steps when it had taken more, and its weights
/// keep pace with them.
pub proof fn law_cut_back_keeps_a_prefix<T>(p: Particle<T>, step: int)
    requires
        0 <= step,
        p.partial_log_weights@.len() == p.steps@.len(),
    ensures
        ({
            let (steps, _, weights) = cut_back(p, step);
            &&& steps.len() <= p.steps@.len()
            &&& steps == strings_view(p.steps@).take(steps.len() as int)
            &&& p.steps@.len() > step ==> steps.len() == step
            &&& weights.len() == steps.len()
        }),
{
    assert(strings_view(p.steps@).take(p.steps@.len() as int) =~= strings_view(p.steps@));
}

/// The particles drawn at `indices`, each cut back to `step` steps (see
/// [`cut_back`]).
pub fn resample<T: Copy>(particles: &Vec<Particle<T>>, indices: &Vec<usize>, step: usize) -> (r: Vec<Particle<T>>)
    requires
        forall|k: int| 0 <= k < indices@.len() ==> #[trigger] indices@[k] < particles@.len(),
    ensures
        r@.len() == indices@.len(),
        forall|k: int| 0 <= k < r@.len() ==> #[trigger] particle_view(r@[k]) == cut_back(particles@[indices@[k] as int], step as int),
{
    let mut r: Vec<Particle<T>> = Vec::new();
    let mut k: usize = 0;
    while k < indices.len()
        invariant
            k <= indices@.len(),
            r@.len() == k,
            forall|j: int| 0 <= j < indices@.len() ==> #[trigger] indices@[j] < particles@.len(),
            forall|j: int| 0 <= j < k ==> #[trigger] particle_view(r@[j]) == cut_back(particles@[indices@[j] as int], step as int),
        decreases indices@.len() - k,
    {
        let p = &particles[indices[k]];
        let q = if p.steps.len() > step {
            let steps = copy_prefix(&p.steps, step);
            let n = if p.partial_log_weights.len() > step { step } else { p.partial_log_weights.len() };
            let weights = copy_values(&p.partial_log_weights, n);
            assert(p.partial_log_weights@.take(p.partial_log_weights@.len() as int) =~= p.partial_log_weights@);
            Particle { steps, is_stopped: false, partial_log_weights: weights }
        } else {
            p.deepcopy()
        };
        r.push(q);
        k = k + 1;
    }
    r
}

/// The beams the next level starts from: the first `beam_width` ranked
/// beams (all of them when fewer), repeated `num_beams` times.
pub fn next_beams<T: Copy>(ranked: &Vec<Path<T>>, beam_width: usize, num_beams: usize) -> (r: Vec<Path<T>>)
    requires
        num_beams * beam_width <= usize::MAX,
    ensures
        ({
            let keep = if ranked@.len() < beam_width {
                ranked@.len() as int
            } else {
                beam_width as int
            };
            &&& r@.len() == num_beams * keep
            &&& forall|rep: int, j: int|
                0 <= rep < num_beams && 0 <= j < keep ==> #[trigger] path_view(r@[rep * keep + j]) == path_view(ranked@[j])
        }),
{
    let keep: usize = if ranked.len() < beam_width { ranked.len() } else { beam_width };
    proof {
        assert(num_beams * keep <= num_beams * beam_width) by (nonlinear_arith)
            requires
                keep <= beam_width,
        ;
    }
    let mut r: Vec<Path<T>> = Vec::new();
    let mut rep: usize = 0;
    while rep < num_beams
        invariant
            rep <= num_beams,
            keep <= ranked@.len(),
            num_beams * keep <= usize::MAX,
            r@.len() == rep * keep,
            forall|a: int, j: int| 0 <= a < rep && 0 <= j < keep ==> #[trigger] path_view(r@[a * keep + j]) == path_view(ranked@[j]),
        decreases num_beams - rep,
    {
        let mut j: usize = 0;
        while j < keep
            invariant
                rep < num_beams,
                j <= keep <= ranked@.len(),
                num_beams * keep <= usize::MAX,
                r@.len() == rep * keep + j,
                forall|a: int, b: int| 0 <= a < rep && 0 <= b < keep ==> #[trigger] path_view(r@[a * keep + b]) == path_view(ranked@[b]),
                forall|b: int| 0 <= b < j ==> #[trigger] path_view(r@[rep * keep + b]) == path_view(ranked@[b]),
            decreases keep - j,
        {
            proof {
                assert(rep * keep + j < num_beams * keep) by (nonlinear_arith)
                    requires
                        rep < num_beams,
                        j < keep,
                ;
            }
            let ghost before = r@;
            r.push(ranked[j].deepcopy());
            proof {
                assert forall|a: int, b: int| 0 <= a < rep && 0 <= b < keep implies #[trigger] path_view(r@[a * keep + b]) == path_view(ranked@[b]) by {
                    assert(a * keep + b < rep * keep) by (nonlinear_arith)
                        requires
                            a < rep,
                            b < keep,
                            0 <= a,
                            0 <= b,
                    ;
                    assert(r@[a * keep + b] == before[a * keep + b]);
                }
                assert forall|b: int| 0 <= b < j + 1 implies #[trigger] path_view(r@[rep * keep + b]) == path_view(ranked@[b]) by {
                    if b < j {
                        assert(r@[rep * keep + b] == before[rep * keep + b]);
                    }
                }
            }
            j = j + 1;
        }
        proof {
            assert((rep + 1) * keep == rep * keep + keep) by (nonlinear_arith);
            assert forall|a: int, b: int| 0 <= a < rep + 1 && 0 <= b < keep implies #[trigger] path_view(r@[a * keep + b]) == path_view(ranked@[b]) by {
                if a < rep {
                } else {
                    assert(a == rep);
                }
            }
        }
        rep = rep + 1;
    }
    r
}

} // verus!
