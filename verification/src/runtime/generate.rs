//! Greedy generation: which token is fed next, and when to stop.

use crate::float_bits::{f32_mag, f32_neg};
use crate::float_ops::f32_is_nan;
use vstd::prelude::*;

verus! {

/// A number that orders finite and infinite fp32 patterns by their value.
pub open spec fn f32_key(b: u32) -> int {
    if f32_neg(b) {
        -(f32_mag(b) as int)
    } else {
        f32_mag(b) as int
    }
}

/// Whether the number `x` is greater than the number `y`. Nothing is greater
/// than a NaN, nor is a NaN greater than anything.
pub open spec fn f32_greater(x: u32, y: u32) -> bool {
    !f32_is_nan(x) && !f32_is_nan(y) && f32_key(x) > f32_key(y)
}

/// Whether the number `x` is greater than the number `y`.
fn greater(x: u32, y: u32) -> (b: bool)
    ensures
        b == f32_greater(x, y),
{
    let gx: u32 = x % 0x8000_0000;
    let gy: u32 = y % 0x8000_0000;
    if gx > 0x7F80_0000 || gy > 0x7F80_0000 {
        return false;
    }
    let kx: i64 = if x >= 0x8000_0000 {
        -(gx as i64)
    } else {
        gx as i64
    };
    let ky: i64 = if y >= 0x8000_0000 {
        -(gy as i64)
    } else {
        gy as i64
    };
    kx > ky
}

/// `i` is the position of the first greatest number: no number is greater,
/// and those before it are less. Where the first number is a NaN, it is that.
pub open spec fn is_argmax(v: Seq<u32>, i: int) -> bool {
    &&& 0 <= i < v.len()
    &&& if f32_is_nan(v[0]) {
        i == 0
    } else {
        &&& !f32_is_nan(v[i])
        &&& forall|j: int| 0 <= j < v.len() ==> !f32_greater(#[trigger] v[j], v[i])
        &&& forall|j: int| 0 <= j < i && !f32_is_nan(v[j]) ==> f32_greater(v[i], #[trigger] v[j])
    }
}

/// There is only one such position.
pub proof fn lemma_argmax_unique(v: Seq<u32>, i: int, j: int)
    requires
        is_argmax(v, i),
        is_argmax(v, j),
    ensures
        i == j,
{
    if i < j {
        assert(!f32_greater(v[j], v[i]));
    } else if j < i {
        assert(!f32_greater(v[i], v[j]));
    }
}

/// The position of the first greatest number among the first `n`.
pub open spec fn best_of(v: Seq<u32>, n: nat) -> nat
    decreases n,
{
    if n <= 1 {
        0
    } else {
        let b = best_of(v, (n - 1) as nat);
        if f32_greater(v[n - 1], v[b as int]) {
            (n - 1) as nat
        } else {
            b
        }
    }
}

/// The position of the first greatest number.
pub open spec fn argmax_of(v: Seq<u32>) -> nat {
    best_of(v, v.len())
}

/// The position of the first greatest number is that.
pub proof fn lemma_argmax(v: Seq<u32>)
    requires
        v.len() > 0,
    ensures
        is_argmax(v, argmax_of(v) as int),
{
    lemma_best(v, v.len());
    assert(v.subrange(0, v.len() as int) =~= v);
}

proof fn lemma_best(v: Seq<u32>, n: nat)
    requires
        0 < n <= v.len(),
    ensures
        is_argmax(v.subrange(0, n as int), best_of(v, n) as int),
    decreases n,
{
    let s = v.subrange(0, n as int);
    if n > 1 {
        let m = (n - 1) as nat;
        lemma_best(v, m);
        let t = v.subrange(0, m as int);
        let b = best_of(v, m) as int;
        assert(t[0] == s[0] && t[b] == s[b]);
        assert forall|j: int| 0 <= j < s.len() implies !f32_greater(
            #[trigger] s[j],
            s[best_of(v, n) as int],
        ) || f32_is_nan(s[0]) by {
            if j < m {
                assert(s[j] == t[j]);
            }
        }
        assert forall|j: int|
            0 <= j < best_of(v, n) && !f32_is_nan(s[j]) && !f32_is_nan(s[0]) implies f32_greater(
            s[best_of(v, n) as int],
            #[trigger] s[j],
        ) by {
            assert(s[j] == t[j]);
        }
    }
}

/// The position of the first greatest number.
pub fn argmax(v: &[u32]) -> (i: usize)
    requires
        v@.len() > 0,
    ensures
        i == argmax_of(v@),
        i < v@.len(),
        is_argmax(v@, i as int),
{
    proof {
        lemma_argmax(v@);
    }
    let mut best_i: usize = 0;
    let mut best_v: u32 = v[0];
    let mut i: usize = 1;
    while i < v.len()
        invariant
            1 <= i <= v@.len(),
            best_i < i,
            best_i == best_of(v@, i as nat),
            best_v == v@[best_i as int],
        decreases v@.len() - i,
    {
        let x: u32 = v[i];
        if greater(x, best_v) {
            best_v = x;
            best_i = i;
        }
        i = i + 1;
    }
    best_i
}

/// The low 32 bits of a number.
pub open spec fn low32(n: nat) -> u32 {
    (n % 0x1_0000_0000) as u32
}

fn to_low32(n: usize) -> (r: u32)
    ensures
        r == low32(n as nat),
{
    (n as u64 % 0x1_0000_0000) as u32
}

/// The token that the model likes best.
pub open spec fn choice(logits: Seq<u32>) -> u32 {
    low32(argmax_of(logits))
}

/// The token that the model likes best is one of those it gave logits for.
pub proof fn lemma_choice_in_range(logits: Seq<u32>)
    requires
        logits.len() > 0,
    ensures
        choice(logits) < logits.len(),
{
    lemma_argmax(logits);
    let best = argmax_of(logits);
    assert(choice(logits) == best % 0x1_0000_0000);
    assert(best % 0x1_0000_0000 <= best);
}

/// What the loop around the model does next.
#[derive(Copy, Clone, Debug, PartialEq, Eq, Structural)]
pub enum Step {
    /// Run the model on a token at a position, and come back with the logits.
    Feed { token: u32, position: u32 },
    /// Generation is over.
    Done,
}

/// A greedy generation under way: the prompt is fed token by token, then each
/// token the model likes best, until there are enough of them or the model
/// ends the text.
#[derive(Debug)]
pub struct Generation {
    prompt: Vec<u32>,
    max_new: usize,
    eos: Option<u32>,
    /// How many tokens were fed.
    fed: usize,
    out: Vec<u32>,
    done: bool,
}

/// What a [`Generation`] has come to.
#[verifier::ext_equal]
pub struct Progress {
    pub prompt: Seq<u32>,
    pub max_new: nat,
    pub eos: Option<u32>,
    /// How many tokens were fed.
    pub fed: nat,
    /// The tokens that were generated.
    pub out: Seq<u32>,
    pub done: bool,
}

impl View for Generation {
    type V = Progress;

    closed spec fn view(&self) -> Progress {
        Progress {
            prompt: self.prompt@,
            max_new: self.max_new as nat,
            eos: self.eos,
            fed: self.fed as nat,
            out: self.out@,
            done: self.done,
        }
    }
}

impl Progress {
    /// A generation that has not started.
    pub open spec fn start(prompt: Seq<u32>, max_new: nat, eos: Option<u32>) -> Progress {
        Progress { prompt, max_new, eos, fed: 0, out: Seq::empty(), done: false }
    }

    /// What every step keeps: once the prompt is fed, a token is fed for each
    /// one that is generated, but for the last.
    pub open spec fn ok(self) -> bool {
        &&& self.prompt.len() > 0
        &&& self.out.len() <= self.max_new
        &&& self.fed < self.prompt.len() ==> self.out.len() == 0 && !self.done
        &&& self.fed >= self.prompt.len() && !self.done ==> self.fed == self.prompt.len()
            + self.out.len()
    }

    /// The state and the action that follow, where `next` is the token the
    /// model likes best after what was fed last.
    pub open spec fn after(self, next: u32) -> (Progress, Step) {
        if self.done {
            (self, Step::Done)
        } else if self.fed < self.prompt.len() {
            (
                Progress { fed: self.fed + 1, ..self },
                Step::Feed { token: self.prompt[self.fed as int], position: low32(self.fed) },
            )
        } else if self.out.len() == self.max_new {
            (Progress { done: true, ..self }, Step::Done)
        } else if self.eos == Some(next) {
            (Progress { out: self.out.push(next), done: true, ..self }, Step::Done)
        } else {
            (
                Progress { out: self.out.push(next), fed: self.fed + 1, ..self },
                Step::Feed { token: next, position: low32(self.fed) },
            )
        }
    }
}

impl Generation {
    /// The state is one that generation can be in.
    pub closed spec fn wf(&self) -> bool {
        &&& self@.ok()
        &&& self.prompt@.len() + self.max_new <= usize::MAX
    }

    /// A generation of up to `max_new` tokens after `prompt`. Generation ends
    /// early at the token `eos`.
    pub fn new(prompt: Vec<u32>, max_new: usize, eos: Option<u32>) -> (g: Self)
        requires
            prompt@.len() > 0,
            prompt@.len() + max_new <= usize::MAX,
        ensures
            g.wf(),
            g@ == Progress::start(prompt@, max_new as nat, eos),
    {
        Generation { prompt, max_new, eos, fed: 0, out: Vec::new(), done: false }
    }

    /// What to do next. `logits` is what the model returned for the token that
    /// was fed last; it is not looked at before the prompt is fed, nor once
    /// there are enough tokens.
    pub fn step(&mut self, logits: &[u32]) -> (s: Step)
        requires
            old(self).wf(),
            old(self)@.fed >= old(self)@.prompt.len() && !old(self)@.done && old(self)@.out.len()
                < old(self)@.max_new ==> logits@.len() > 0,
        ensures
            final(self).wf(),
            (final(self)@, s) == old(self)@.after(choice(logits@)),
    {
        let ghost before = self@;
        if self.done {
            return Step::Done;
        }
        if self.fed < self.prompt.len() {
            let s = Step::Feed { token: self.prompt[self.fed], position: to_low32(self.fed) };
            self.fed = self.fed + 1;
            assert(self@ =~= before.after(choice(logits@)).0);
            return s;
        }
        if self.out.len() == self.max_new {
            self.done = true;
            assert(self@ =~= before.after(choice(logits@)).0);
            return Step::Done;
        }
        let next: u32 = to_low32(argmax(logits));
        self.out.push(next);
        if self.ends(next) {
            self.done = true;
            assert(self@ =~= before.after(next).0);
            return Step::Done;
        }
        let s = Step::Feed { token: next, position: to_low32(self.fed) };
        self.fed = self.fed + 1;
        assert(self@ =~= before.after(next).0);
        s
    }

    /// Whether a token ends the text.
    fn ends(&self, token: u32) -> (b: bool)
        ensures
            b == (self@.eos == Some(token)),
    {
        match self.eos {
            Some(e) => e == token,
            None => false,
        }
    }

    /// The tokens that were generated, for good.
    pub fn into_tokens(self) -> (t: Vec<u32>)
        ensures
            t@ == self@.out,
    {
        self.out
    }

    /// The tokens that were generated.
    pub fn tokens(&self) -> (t: &Vec<u32>)
        ensures
            t@ == self@.out,
    {
        &self.out
    }
}

/// The state after `n` steps, where `logits(k)` is what the model returns for
/// the `k`-th token it is fed.
pub open spec fn run(start: Progress, logits: spec_fn(nat) -> Seq<u32>, n: nat) -> Progress
    decreases n,
{
    if n == 0 {
        start
    } else {
        let p = run(start, logits, (n - 1) as nat);
        p.after(choice(logits(p.fed))).0
    }
}

/// The tokens that greedy decoding gives: the best one after each token that
/// was fed, up to and with the end of the text, `left` of them at most.
pub open spec fn greedy(
    logits: spec_fn(nat) -> Seq<u32>,
    fed: nat,
    left: nat,
    eos: Option<u32>,
) -> Seq<u32>
    decreases left,
{
    if left == 0 {
        Seq::empty()
    } else {
        let t = choice(logits(fed));
        if eos == Some(t) {
            seq![t]
        } else {
            seq![t] + greedy(logits, fed + 1, (left - 1) as nat, eos)
        }
    }
}

/// What is still to come, after what was generated.
spec fn expected(p: Progress, logits: spec_fn(nat) -> Seq<u32>) -> Seq<u32> {
    if p.done {
        p.out
    } else if p.fed < p.prompt.len() {
        greedy(logits, p.prompt.len(), p.max_new, p.eos)
    } else {
        p.out + greedy(logits, p.fed, (p.max_new - p.out.len()) as nat, p.eos)
    }
}

/// A step leaves what is expected.
proof fn lemma_expected(p: Progress, logits: spec_fn(nat) -> Seq<u32>)
    requires
        p.ok(),
    ensures
        ({
            let q = p.after(choice(logits(p.fed))).0;
            &&& q.ok()
            &&& expected(q, logits) == expected(p, logits)
        }),
{
    let t = choice(logits(p.fed));
    let q = p.after(t).0;
    if p.done {
    } else if p.fed < p.prompt.len() {
        assert(Seq::<u32>::empty() + greedy(logits, q.fed, p.max_new, p.eos) =~= greedy(
            logits,
            q.fed,
            p.max_new,
            p.eos,
        ));
        assert(p.out =~= Seq::<u32>::empty());
    } else if p.out.len() == p.max_new {
        assert(p.out + Seq::<u32>::empty() =~= p.out);
    } else {
        let left = (p.max_new - p.out.len()) as nat;
        assert(p.out.push(t) =~= p.out + seq![t]);
        let rest = greedy(logits, p.fed + 1, (left - 1) as nat, p.eos);
        assert(p.out + (seq![t] + rest) =~= (p.out + seq![t]) + rest);
    }
}

proof fn lemma_run(start: Progress, logits: spec_fn(nat) -> Seq<u32>, n: nat)
    requires
        start.prompt.len() > 0,
        start == Progress::start(start.prompt, start.max_new, start.eos),
    ensures
        ({
            let p = run(start, logits, n);
            &&& p.ok()
            &&& p.prompt == start.prompt
            &&& p.max_new == start.max_new
            &&& p.eos == start.eos
            &&& !p.done ==> p.fed == n
            &&& expected(p, logits) == greedy(
                logits,
                start.prompt.len(),
                start.max_new,
                start.eos,
            )
        }),
    decreases n,
{
    if n > 0 {
        lemma_run(start, logits, (n - 1) as nat);
        lemma_expected(run(start, logits, (n - 1) as nat), logits);
    }
}

/// Generation gives what greedy decoding gives, and is over after as many
/// steps as there are tokens in the prompt, tokens to generate, and one.
pub proof fn lemma_generation_is_greedy(
    prompt: Seq<u32>,
    max_new: nat,
    eos: Option<u32>,
    logits: spec_fn(nat) -> Seq<u32>,
)
    requires
        prompt.len() > 0,
    ensures
        ({
            let p = run(
                Progress::start(prompt, max_new, eos),
                logits,
                prompt.len() + max_new + 1,
            );
            p.done && p.out == greedy(logits, prompt.len(), max_new, eos)
        }),
{
    lemma_run(Progress::start(prompt, max_new, eos), logits, prompt.len() + max_new + 1);
}

/// No more tokens are generated than were asked for, and only the last of them
/// can be the end of the text.
pub proof fn lemma_greedy_stops_at_end(
    logits: spec_fn(nat) -> Seq<u32>,
    fed: nat,
    left: nat,
    eos: Option<u32>,
)
    ensures
        greedy(logits, fed, left, eos).len() <= left,
        forall|i: int|
            0 <= i < greedy(logits, fed, left, eos).len() - 1 ==> eos != Some(
                #[trigger] greedy(logits, fed, left, eos)[i],
            ),
        greedy(logits, fed, left, eos).len() < left ==> greedy(logits, fed, left, eos).len() > 0
            && eos == Some(greedy(logits, fed, left, eos).last()),
    decreases left,
{
    if left > 0 {
        let rest = greedy(logits, fed + 1, (left - 1) as nat, eos);
        lemma_greedy_stops_at_end(logits, fed + 1, (left - 1) as nat, eos);
        let all = greedy(logits, fed, left, eos);
        let t = choice(logits(fed));
        if eos != Some(t) {
            assert forall|i: int| 0 <= i < all.len() - 1 implies eos != Some(#[trigger] all[i]) by {
                if i > 0 {
                    assert(all[i] == rest[i - 1]);
                }
            }
            if all.len() < left {
                assert(all.last() == rest.last());
            }
        }
    }
}

/// Each step that feeds the model feeds the next token at the next position: the
/// tokens of the prompt, then those that are generated, but for the last of them
/// or the end of the text.
pub proof fn lemma_tokens_fed_in_order(
    prompt: Seq<u32>,
    max_new: nat,
    eos: Option<u32>,
    logits: spec_fn(nat) -> Seq<u32>,
    n: nat,
)
    requires
        prompt.len() > 0,
        prompt.len() + max_new <= 0xFFFF_FFFF,
    ensures
        ({
            let p = run(Progress::start(prompt, max_new, eos), logits, n);
            let text = greedy(logits, prompt.len(), max_new, eos);
            match p.after(choice(logits(p.fed))).1 {
                Step::Feed { token, position } => position == n && n < prompt.len() + text.len()
                    && token == (prompt + text)[n as int],
                Step::Done => n >= prompt.len() + text.len() || (eos is Some && n + 1
                    >= prompt.len() + text.len()),
            }
        }),
{
    let start = Progress::start(prompt, max_new, eos);
    lemma_run(start, logits, n);
    let p = run(start, logits, n);
    let text = greedy(logits, prompt.len(), max_new, eos);
    lemma_expected(p, logits);
    let t = choice(logits(p.fed));
    let q = p.after(t).0;
    assert(q.out == expected(q, logits).take(q.out.len() as int)) by {
        if q.done {
            assert(q.out =~= q.out.take(q.out.len() as int));
        } else if q.fed < q.prompt.len() {
            assert(q.out =~= expected(q, logits).take(0));
        } else {
            assert(q.out =~= expected(q, logits).take(q.out.len() as int));
        }
    }
    if !p.done && p.fed >= prompt.len() && p.out.len() < max_new && eos != Some(t) {
        assert(text[p.out.len() as int] == t) by {
            assert(q.out.last() == t);
            assert(expected(q, logits).len() >= q.out.len());
        }
    }
    if p.done {
        lemma_done_late(prompt, max_new, eos, logits, n);
    }
}

/// A generation that is over has had a step for every token of the prompt and of
/// the text, but for the end of the text.
proof fn lemma_done_late(
    prompt: Seq<u32>,
    max_new: nat,
    eos: Option<u32>,
    logits: spec_fn(nat) -> Seq<u32>,
    n: nat,
)
    requires
        prompt.len() > 0,
        run(Progress::start(prompt, max_new, eos), logits, n).done,
    ensures
        n >= prompt.len() + greedy(logits, prompt.len(), max_new, eos).len(),
    decreases n,
{
    let start = Progress::start(prompt, max_new, eos);
    lemma_run(start, logits, n);
    let before = run(start, logits, (n - 1) as nat);
    lemma_run(start, logits, (n - 1) as nat);
    if before.done {
        lemma_done_late(prompt, max_new, eos, logits, (n - 1) as nat);
    }
}

} // verus!
