//! Runtime profile of the local llama-server: which context size, parallel
//! slots and GPU layers it starts with, and the fallbacks tried when a start
//! fails. Values read from the environment or the machine come in as arguments.

use vstd::prelude::*;

use crate::text::{dec, parse_u32, parse_u32_spec, push_dec, str_eq, trim, trim_seq};

verus! {

/// What the server is started for.
#[derive(Debug, Clone, Copy, Eq, PartialEq, Structural)]
pub enum LlamaRuntimeIntent {
    AppDefault,
    BenchmarkPrimary,
    ResearchLarge,
}

impl Default for LlamaRuntimeIntent {
    fn default() -> (r: Self)
        ensures
            r == LlamaRuntimeIntent::AppDefault,
    {
        LlamaRuntimeIntent::AppDefault
    }
}

/// Settings asked for when starting the server; unset ones get defaults.
#[derive(Debug, Clone)]
pub struct LlamaServerStartOptions {
    pub reasoning_format: Option<String>,
    pub context_size: Option<u32>,
    pub parallel_slots: Option<u32>,
    pub gpu_layers: Option<u32>,
    pub runtime_intent: Option<LlamaRuntimeIntent>,
}

impl Default for LlamaServerStartOptions {
    fn default() -> (r: Self)
        ensures
            r.reasoning_format is None,
            r.context_size is None,
            r.parallel_slots is None,
            r.gpu_layers is None,
            r.runtime_intent is None,
    {
        LlamaServerStartOptions {
            reasoning_format: None,
            context_size: None,
            parallel_slots: None,
            gpu_layers: None,
            runtime_intent: None,
        }
    }
}

/// The settings a start is tried with.
#[derive(Debug, Clone, Copy, Eq, PartialEq, Hash, Structural)]
pub struct ResolvedRuntimeProfile {
    pub context_size: u32,
    pub parallel_slots: u32,
    pub gpu_layers: u32,
}

pub open spec fn intent_name(intent: LlamaRuntimeIntent) -> Seq<char> {
    match intent {
        LlamaRuntimeIntent::AppDefault => "app_default"@,
        LlamaRuntimeIntent::BenchmarkPrimary => "benchmark_primary"@,
        LlamaRuntimeIntent::ResearchLarge => "research_large"@,
    }
}

pub fn runtime_intent_name(intent: LlamaRuntimeIntent) -> (s: &'static str)
    ensures
        s@ == intent_name(intent),
{
    match intent {
        LlamaRuntimeIntent::AppDefault => "app_default",
        LlamaRuntimeIntent::BenchmarkPrimary => "benchmark_primary",
        LlamaRuntimeIntent::ResearchLarge => "research_large",
    }
}

/// The intent asked for, else research for a large context or several slots,
/// else the app default.
pub open spec fn intent_of(options: LlamaServerStartOptions) -> LlamaRuntimeIntent {
    match options.runtime_intent {
        Some(intent) => intent,
        None => {
            let ctx = match options.context_size {
                Some(c) => c,
                None => 0,
            };
            let par = match options.parallel_slots {
                Some(p) => p,
                None => 0,
            };
            if ctx >= 32768 || par > 1 {
                LlamaRuntimeIntent::ResearchLarge
            } else {
                LlamaRuntimeIntent::AppDefault
            }
        },
    }
}

pub fn derive_runtime_intent(options: &LlamaServerStartOptions) -> (r: LlamaRuntimeIntent)
    ensures
        r == intent_of(*options),
{
    match options.runtime_intent {
        Some(intent) => intent,
        None => {
            let ctx = match options.context_size {
                Some(c) => c,
                None => 0,
            };
            let par = match options.parallel_slots {
                Some(p) => p,
                None => 0,
            };
            if ctx >= 32768 || par > 1 {
                LlamaRuntimeIntent::ResearchLarge
            } else {
                LlamaRuntimeIntent::AppDefault
            }
        },
    }
}

/// A positive number set in an environment variable, surrounding whitespace allowed.
pub open spec fn positive_setting(raw: Seq<char>) -> Option<u32> {
    match parse_u32_spec(trim_seq(raw)) {
        Some(v) => if v > 0 {
            Some(v)
        } else {
            None
        },
        None => None,
    }
}

/// Reads the value of a numeric setting: a positive decimal number.
pub fn parse_positive_setting(raw: &str) -> (r: Option<u32>)
    ensures
        r == positive_setting(raw@),
{
    match parse_u32(trim(raw)) {
        Some(v) => if v > 0 {
            Some(v)
        } else {
            None
        },
        None => None,
    }
}

pub open spec fn context_default(intent: LlamaRuntimeIntent, env_value: Option<u32>) -> u32 {
    match env_value {
        Some(v) => v,
        None => match intent {
            LlamaRuntimeIntent::ResearchLarge => 32768,
            _ => 8192,
        },
    }
}

/// The context size used when none is asked for: the environment setting when
/// present, else 32768 for research and 8192 otherwise.
pub fn default_context_size(intent: LlamaRuntimeIntent, _model_bytes: Option<u64>, env_value: Option<u32>) -> (r:
    u32)
    ensures
        r == context_default(intent, env_value),
{
    if let Some(value) = env_value {
        return value;
    }
    match intent {
        LlamaRuntimeIntent::AppDefault => 8192,
        LlamaRuntimeIntent::BenchmarkPrimary => 8192,
        LlamaRuntimeIntent::ResearchLarge => 32768,
    }
}

pub open spec fn parallel_default(intent: LlamaRuntimeIntent, env_value: Option<u32>) -> u32 {
    match env_value {
        Some(v) => if v >= 1 {
            v
        } else {
            1
        },
        None => match intent {
            LlamaRuntimeIntent::ResearchLarge => 4,
            _ => 1,
        },
    }
}

/// The parallel slots used when none are asked for: the environment setting
/// (at least 1) when present, else 4 for research and 1 otherwise.
pub fn default_parallel_slots(intent: LlamaRuntimeIntent, env_value: Option<u32>) -> (r: u32)
    ensures
        r == parallel_default(intent, env_value),
        r >= 1,
{
    if let Some(value) = env_value {
        return if value >= 1 {
            value
        } else {
            1
        };
    }
    match intent {
        LlamaRuntimeIntent::ResearchLarge => 4,
        LlamaRuntimeIntent::AppDefault | LlamaRuntimeIntent::BenchmarkPrimary => 1,
    }
}

pub open spec fn min_vram_for(model_bytes: Option<u64>) -> u32 {
    let bytes: u64 = match model_bytes {
        Some(b) => b,
        None => 0,
    };
    if bytes == 0 {
        6144
    } else if bytes <= 3_000_000_000 {
        4096
    } else if bytes <= 6_000_000_000 {
        6144
    } else {
        8192
    }
}

/// Least GPU memory, in MiB, that the model needs.
pub fn min_supported_vram_mib(model_bytes: Option<u64>) -> (r: u32)
    ensures
        r == min_vram_for(model_bytes),
{
    let bytes: u64 = match model_bytes {
        Some(b) => b,
        None => 0,
    };
    if bytes == 0 {
        6144
    } else if bytes <= 3_000_000_000 {
        4096
    } else if bytes <= 6_000_000_000 {
        6144
    } else {
        8192
    }
}

/// GPU layers for the detected amount of GPU memory.
pub open spec fn layers_for_vram(vram: u32) -> u32 {
    if vram >= 20480 {
        99
    } else if vram >= 16384 {
        80
    } else if vram >= 12288 {
        64
    } else if vram >= 10240 {
        48
    } else if vram >= 8192 {
        32
    } else if vram >= 6144 {
        24
    } else {
        16
    }
}

/// GPU layers when the GPU memory is unknown, from the model size.
pub open spec fn conservative_layers(model_bytes: Option<u64>) -> u32 {
    let bytes: u64 = match model_bytes {
        Some(b) => b,
        None => 0,
    };
    if bytes == 0 {
        32
    } else if bytes <= 3_000_000_000 {
        64
    } else if bytes <= 6_000_000_000 {
        48
    } else {
        32
    }
}

pub open spec fn low_vram_message(total: u32, min: u32) -> Seq<char> {
    "GPU memory too low for manga mood ("@ + dec(total as nat) + " MiB detected, need roughly >= "@ + dec(
        min as nat,
    ) + " MiB)."@
}

/// The GPU layers to offload: the explicit or configured number; else from the
/// detected GPU memory, refused below the model's minimum; else from the model
/// size.
pub open spec fn gpu_layers_choice(
    explicit_layers: Option<u32>,
    env_layers: Option<u32>,
    model_bytes: Option<u64>,
    detected_vram: Option<u32>,
) -> Result<u32, Seq<char>> {
    match explicit_layers {
        Some(v) => Ok(v),
        None => match env_layers {
            Some(v) => Ok(v),
            None => match detected_vram {
                Some(total) => if total < min_vram_for(model_bytes) {
                    Err(low_vram_message(total, min_vram_for(model_bytes)))
                } else {
                    Ok(layers_for_vram(total))
                },
                None => Ok(conservative_layers(model_bytes)),
            },
        },
    }
}

pub open spec fn text_result(r: Result<u32, String>) -> Result<u32, Seq<char>> {
    match r {
        Ok(v) => Ok(v),
        Err(e) => Err(e@),
    }
}

pub fn choose_gpu_layers(
    explicit_layers: Option<u32>,
    env_layers: Option<u32>,
    model_bytes: Option<u64>,
    detected_vram: Option<u32>,
) -> (r: Result<u32, String>)
    ensures
        text_result(r) == gpu_layers_choice(explicit_layers, env_layers, model_bytes, detected_vram),
{
    if let Some(value) = explicit_layers {
        return Ok(value);
    }
    if let Some(value) = env_layers {
        return Ok(value);
    }
    let min_vram = min_supported_vram_mib(model_bytes);
    if let Some(total_vram) = detected_vram {
        if total_vram < min_vram {
            let mut msg = "GPU memory too low for manga mood (".to_string();
            push_dec(&mut msg, total_vram);
            msg.append(" MiB detected, need roughly >= ");
            push_dec(&mut msg, min_vram);
            msg.append(" MiB).");
            return Err(msg);
        }
        let layers: u32 = if total_vram >= 20480 {
            99
        } else if total_vram >= 16384 {
            80
        } else if total_vram >= 12288 {
            64
        } else if total_vram >= 10240 {
            48
        } else if total_vram >= 8192 {
            32
        } else if total_vram >= 6144 {
            24
        } else {
            16
        };
        return Ok(layers);
    }
    let bytes: u64 = match model_bytes {
        Some(b) => b,
        None => 0,
    };
    let conservative: u32 = if bytes == 0 {
        32
    } else if bytes <= 3_000_000_000 {
        64
    } else if bytes <= 6_000_000_000 {
        48
    } else {
        32
    };
    Ok(conservative)
}

/// The values of `xs` below `bound`, in order.
pub open spec fn below(xs: Seq<u32>, bound: u32) -> Seq<u32>
    decreases xs.len(),
{
    if xs.len() == 0 {
        Seq::empty()
    } else if xs.last() < bound {
        below(xs.drop_last(), bound).push(xs.last())
    } else {
        below(xs.drop_last(), bound)
    }
}

pub open spec fn gpu_steps() -> Seq<u32> {
    seq![80u32, 64, 48, 32, 24, 16]
}

pub open spec fn context_steps() -> Seq<u32> {
    seq![12288u32, 8192, 4096]
}

/// `initial`, then the steps below it, in order.
pub open spec fn fallbacks(initial: u32, steps: Seq<u32>) -> Seq<u32> {
    seq![initial] + below(steps, initial)
}

fn fallbacks_from(initial: u32, steps: &[u32]) -> (v: Vec<u32>)
    ensures
        v@ == fallbacks(initial, steps@),
{
    let mut v: Vec<u32> = Vec::new();
    v.push(initial);
    let mut i: usize = 0;
    while i < steps.len()
        invariant
            i <= steps@.len(),
            v@ == seq![initial] + below(steps@.take(i as int), initial),
        decreases steps@.len() - i,
    {
        let ghost prev = steps@.take(i as int);
        assert(steps@.take(i + 1).drop_last() =~= prev);
        if steps[i] < initial {
            v.push(steps[i]);
            assert(v@ =~= seq![initial] + below(steps@.take(i + 1), initial));
        }
        i = i + 1;
    }
    assert(steps@.take(i as int) =~= steps@);
    v
}

/// GPU layer counts to try: the initial one, then each smaller step.
pub fn gpu_layer_fallbacks(initial: u32) -> (v: Vec<u32>)
    ensures
        v@ == fallbacks(initial, gpu_steps()),
{
    let steps: [u32; 6] = [80, 64, 48, 32, 24, 16];
    assert(steps@ =~= gpu_steps());
    fallbacks_from(initial, &steps)
}

/// Context sizes to try: the initial one, then each smaller step.
pub fn context_fallbacks(initial: u32) -> (v: Vec<u32>)
    ensures
        v@ == fallbacks(initial, context_steps()),
{
    let steps: [u32; 3] = [12288, 8192, 4096];
    assert(steps@ =~= context_steps());
    fallbacks_from(initial, &steps)
}

pub open spec fn profile(c: u32, p: u32, g: u32) -> ResolvedRuntimeProfile {
    ResolvedRuntimeProfile { context_size: c, parallel_slots: p, gpu_layers: g }
}

/// The profiles for context `c` and slots `p`, one per GPU layer count.
pub open spec fn gpu_row(c: u32, p: u32, gs: Seq<u32>) -> Seq<ResolvedRuntimeProfile> {
    gs.map_values(|g: u32| profile(c, p, g))
}

/// The profiles for context `c` and the first `j` slot counts.
pub open spec fn context_block(c: u32, ps: Seq<u32>, gs: Seq<u32>, j: int) -> Seq<ResolvedRuntimeProfile>
    decreases j,
{
    if j <= 0 {
        Seq::empty()
    } else {
        context_block(c, ps, gs, j - 1) + gpu_row(c, ps[j - 1], gs)
    }
}

/// Every combination of the first `i` contexts with every slot count and GPU
/// layer count, contexts varying slowest and layer counts fastest.
pub open spec fn combinations(cs: Seq<u32>, ps: Seq<u32>, gs: Seq<u32>, i: int) -> Seq<ResolvedRuntimeProfile>
    decreases i,
{
    if i <= 0 {
        Seq::empty()
    } else {
        combinations(cs, ps, gs, i - 1) + context_block(cs[i - 1], ps, gs, ps.len() as int)
    }
}

/// The profiles of `s` without repeats, each where it first occurs.
pub open spec fn first_occurrences(s: Seq<ResolvedRuntimeProfile>) -> Seq<ResolvedRuntimeProfile>
    decreases s.len(),
{
    if s.len() == 0 {
        Seq::empty()
    } else {
        let d = first_occurrences(s.drop_last());
        if d.contains(s.last()) {
            d
        } else {
            d.push(s.last())
        }
    }
}

pub open spec fn context_variants(base: ResolvedRuntimeProfile, lock: bool) -> Seq<u32> {
    if lock {
        seq![base.context_size]
    } else {
        fallbacks(base.context_size, context_steps())
    }
}

pub open spec fn parallel_variants(base: ResolvedRuntimeProfile, lock: bool) -> Seq<u32> {
    if lock || base.parallel_slots == 1 {
        seq![base.parallel_slots]
    } else {
        seq![base.parallel_slots, 1u32]
    }
}

pub open spec fn gpu_variants(base: ResolvedRuntimeProfile, lock: bool) -> Seq<u32> {
    if lock {
        seq![base.gpu_layers]
    } else {
        fallbacks(base.gpu_layers, gpu_steps())
    }
}

/// The profiles to try, in order: each combination of the context, slot and
/// GPU layer variants (unlocked settings fall back step by step), first
/// occurrences only.
pub open spec fn runtime_candidates(
    base: ResolvedRuntimeProfile,
    lock_context: bool,
    lock_parallel: bool,
    lock_gpu_layers: bool,
) -> Seq<ResolvedRuntimeProfile> {
    let cs = context_variants(base, lock_context);
    let ps = parallel_variants(base, lock_parallel);
    let gs = gpu_variants(base, lock_gpu_layers);
    first_occurrences(combinations(cs, ps, gs, cs.len() as int))
}

fn contains_profile(v: &Vec<ResolvedRuntimeProfile>, p: ResolvedRuntimeProfile) -> (r: bool)
    ensures
        r == v@.contains(p),
{
    let mut i: usize = 0;
    while i < v.len()
        invariant
            i <= v@.len(),
            forall|j: int| 0 <= j < i ==> v@[j] != p,
        decreases v@.len() - i,
    {
        if v[i] == p {
            assert(v@[i as int] == p);
            return true;
        }
        i = i + 1;
    }
    false
}

proof fn lemma_first_occurrences_push(s: Seq<ResolvedRuntimeProfile>, x: ResolvedRuntimeProfile)
    ensures
        first_occurrences(s.push(x)) == (if first_occurrences(s).contains(x) {
            first_occurrences(s)
        } else {
            first_occurrences(s).push(x)
        }),
{
    assert(s.push(x).drop_last() =~= s);
}

pub fn build_runtime_candidates(
    base: ResolvedRuntimeProfile,
    lock_context: bool,
    lock_parallel: bool,
    lock_gpu_layers: bool,
) -> (out: Vec<ResolvedRuntimeProfile>)
    ensures
        out@ == runtime_candidates(base, lock_context, lock_parallel, lock_gpu_layers),
{
    let context_variants: Vec<u32> = if lock_context {
        let mut v: Vec<u32> = Vec::new();
        v.push(base.context_size);
        assert(v@ =~= seq![base.context_size]);
        v
    } else {
        context_fallbacks(base.context_size)
    };
    let parallel_variants: Vec<u32> = if lock_parallel || base.parallel_slots == 1 {
        let mut v: Vec<u32> = Vec::new();
        v.push(base.parallel_slots);
        assert(v@ =~= seq![base.parallel_slots]);
        v
    } else {
        let mut v: Vec<u32> = Vec::new();
        v.push(base.parallel_slots);
        v.push(1);
        assert(v@ =~= seq![base.parallel_slots, 1u32]);
        v
    };
    let gpu_variants: Vec<u32> = if lock_gpu_layers {
        let mut v: Vec<u32> = Vec::new();
        v.push(base.gpu_layers);
        assert(v@ =~= seq![base.gpu_layers]);
        v
    } else {
        gpu_layer_fallbacks(base.gpu_layers)
    };
    let ghost cs = context_variants@;
    let ghost ps = parallel_variants@;
    let ghost gs = gpu_variants@;
    let mut ordered: Vec<ResolvedRuntimeProfile> = Vec::new();
    let mut i: usize = 0;
    while i < context_variants.len()
        invariant
            cs == context_variants@,
            ps == parallel_variants@,
            gs == gpu_variants@,
            i <= cs.len(),
            ordered@ == first_occurrences(combinations(cs, ps, gs, i as int)),
        decreases cs.len() - i,
    {
        let context_size = context_variants[i];
        let mut j: usize = 0;
        while j < parallel_variants.len()
            invariant
                cs == context_variants@,
                ps == parallel_variants@,
                gs == gpu_variants@,
                i < cs.len(),
                context_size == cs[i as int],
                j <= ps.len(),
                ordered@ == first_occurrences(
                    combinations(cs, ps, gs, i as int) + context_block(context_size, ps, gs, j as int),
                ),
            decreases ps.len() - j,
        {
            let parallel_slots = parallel_variants[j];
            let mut k: usize = 0;
            while k < gpu_variants.len()
                invariant
                    cs == context_variants@,
                    ps == parallel_variants@,
                    gs == gpu_variants@,
                    i < cs.len(),
                    j < ps.len(),
                    context_size == cs[i as int],
                    parallel_slots == ps[j as int],
                    k <= gs.len(),
                    ordered@ == first_occurrences(
                        combinations(cs, ps, gs, i as int) + context_block(context_size, ps, gs, j as int)
                            + gpu_row(context_size, parallel_slots, gs.take(k as int)),
                    ),
                decreases gs.len() - k,
            {
                let candidate = ResolvedRuntimeProfile {
                    context_size,
                    parallel_slots,
                    gpu_layers: gpu_variants[k],
                };
                let ghost before = combinations(cs, ps, gs, i as int) + context_block(context_size, ps, gs, j as int)
                    + gpu_row(context_size, parallel_slots, gs.take(k as int));
                proof {
                    assert(combinations(cs, ps, gs, i as int) + context_block(context_size, ps, gs, j as int)
                        + gpu_row(context_size, parallel_slots, gs.take(k + 1)) =~= before.push(candidate));
                    lemma_first_occurrences_push(before, candidate);
                }
                if !contains_profile(&ordered, candidate) {
                    ordered.push(candidate);
                }
                k = k + 1;
            }
            proof {
                assert(gs.take(k as int) =~= gs);
                assert(combinations(cs, ps, gs, i as int) + context_block(context_size, ps, gs, j + 1) =~= combinations(
                    cs,
                    ps,
                    gs,
                    i as int,
                ) + context_block(context_size, ps, gs, j as int) + gpu_row(context_size, parallel_slots, gs));
            }
            j = j + 1;
        }
        proof {
            assert(combinations(cs, ps, gs, i + 1) =~= combinations(cs, ps, gs, i as int) + context_block(
                context_size,
                ps,
                gs,
                ps.len() as int,
            ));
        }
        i = i + 1;
    }
    ordered
}

proof fn lemma_first_occurrences(s: Seq<ResolvedRuntimeProfile>)
    ensures
        first_occurrences(s).no_duplicates(),
        forall|x: ResolvedRuntimeProfile| first_occurrences(s).contains(x) <==> s.contains(x),
        s.len() > 0 ==> first_occurrences(s).len() > 0 && first_occurrences(s)[0] == s[0],
    decreases s.len(),
{
    if s.len() > 0 {
        let t = s.drop_last();
        lemma_first_occurrences(t);
        let d = first_occurrences(t);
        assert forall|x: ResolvedRuntimeProfile| first_occurrences(s).contains(x) <==> s.contains(x) by {
            if s.contains(x) && x != s.last() {
                let i = choose|i: int| 0 <= i < s.len() && s[i] == x;
                assert(t[i] == x);
            }
            if t.contains(x) {
                let i = choose|i: int| 0 <= i < t.len() && t[i] == x;
                assert(s[i] == x);
            }
            if x == s.last() {
                assert(s[s.len() - 1] == x);
            }
            if !d.contains(s.last()) {
                if d.push(s.last()).contains(x) && x != s.last() {
                    let i = choose|i: int| 0 <= i < d.push(s.last()).len() && d.push(s.last())[i] == x;
                    assert(d[i] == x);
                }
                if d.contains(x) {
                    let i = choose|i: int| 0 <= i < d.len() && d[i] == x;
                    assert(d.push(s.last())[i] == x);
                }
                if x == s.last() {
                    assert(d.push(s.last())[d.len() as int] == x);
                }
            }
        }
        if t.len() == 0 {
            assert(d.len() == 0);
        } else {
            assert(t[0] == s[0]);
        }
    }
}

proof fn lemma_combinations_start(cs: Seq<u32>, ps: Seq<u32>, gs: Seq<u32>, i: int)
    requires
        1 <= i <= cs.len(),
        ps.len() > 0,
        gs.len() > 0,
    ensures
        combinations(cs, ps, gs, i).len() > 0,
        combinations(cs, ps, gs, i)[0] == profile(cs[0], ps[0], gs[0]),
    decreases i,
{
    if i > 1 {
        lemma_combinations_start(cs, ps, gs, i - 1);
    } else {
        lemma_block_start(cs[0], ps, gs, ps.len() as int);
        assert(combinations(cs, ps, gs, 0).len() == 0);
    }
}

proof fn lemma_block_start(c: u32, ps: Seq<u32>, gs: Seq<u32>, j: int)
    requires
        1 <= j <= ps.len(),
        gs.len() > 0,
    ensures
        context_block(c, ps, gs, j).len() > 0,
        context_block(c, ps, gs, j)[0] == profile(c, ps[0], gs[0]),
    decreases j,
{
    if j > 1 {
        lemma_block_start(c, ps, gs, j - 1);
    } else {
        assert(context_block(c, ps, gs, 0).len() == 0);
        assert(gpu_row(c, ps[0], gs)[0] == profile(c, ps[0], gs[0]));
    }
}

/// The first profile tried is the base profile itself, and no profile is tried twice.
pub proof fn lemma_candidates_start_with_base(
    base: ResolvedRuntimeProfile,
    lock_context: bool,
    lock_parallel: bool,
    lock_gpu_layers: bool,
)
    ensures
        runtime_candidates(base, lock_context, lock_parallel, lock_gpu_layers).len() > 0,
        runtime_candidates(base, lock_context, lock_parallel, lock_gpu_layers)[0] == base,
        runtime_candidates(base, lock_context, lock_parallel, lock_gpu_layers).no_duplicates(),
{
    let cs = context_variants(base, lock_context);
    let ps = parallel_variants(base, lock_parallel);
    let gs = gpu_variants(base, lock_gpu_layers);
    assert(cs[0] == base.context_size);
    assert(ps[0] == base.parallel_slots);
    assert(gs[0] == base.gpu_layers);
    lemma_combinations_start(cs, ps, gs, cs.len() as int);
    lemma_first_occurrences(combinations(cs, ps, gs, cs.len() as int));
}

proof fn lemma_block_members(c: u32, ps: Seq<u32>, gs: Seq<u32>, j: int, x: ResolvedRuntimeProfile)
    requires
        0 <= j <= ps.len(),
        context_block(c, ps, gs, j).contains(x),
    ensures
        x.context_size == c,
        ps.contains(x.parallel_slots),
        gs.contains(x.gpu_layers),
    decreases j,
{
    if j > 0 {
        let a = context_block(c, ps, gs, j - 1);
        let b = gpu_row(c, ps[j - 1], gs);
        let k = choose|k: int| 0 <= k < (a + b).len() && (a + b)[k] == x;
        if k < a.len() {
            assert(a[k] == x);
            lemma_block_members(c, ps, gs, j - 1, x);
        } else {
            assert(b[k - a.len()] == x);
            assert(gs[k - a.len()] == x.gpu_layers);
            assert(ps[j - 1] == x.parallel_slots);
        }
    }
}

proof fn lemma_combination_members(cs: Seq<u32>, ps: Seq<u32>, gs: Seq<u32>, i: int, x: ResolvedRuntimeProfile)
    requires
        0 <= i <= cs.len(),
        combinations(cs, ps, gs, i).contains(x),
    ensures
        cs.contains(x.context_size),
        ps.contains(x.parallel_slots),
        gs.contains(x.gpu_layers),
    decreases i,
{
    if i > 0 {
        let a = combinations(cs, ps, gs, i - 1);
        let b = context_block(cs[i - 1], ps, gs, ps.len() as int);
        let k = choose|k: int| 0 <= k < (a + b).len() && (a + b)[k] == x;
        if k < a.len() {
            assert(a[k] == x);
            lemma_combination_members(cs, ps, gs, i - 1, x);
        } else {
            assert(b[k - a.len()] == x);
            lemma_block_members(cs[i - 1], ps, gs, ps.len() as int, x);
            assert(cs[i - 1] == x.context_size);
        }
    }
}

proof fn lemma_fallbacks_at_most(initial: u32, steps: Seq<u32>, v: u32)
    requires
        fallbacks(initial, steps).contains(v),
    ensures
        v <= initial,
{
    let k = choose|k: int| 0 <= k < fallbacks(initial, steps).len() && fallbacks(initial, steps)[k] == v;
    if k >= 1 {
        lemma_fallbacks_below(initial, steps, k);
    }
}

/// What every profile tried keeps of the base: a locked setting is never
/// changed; the context size and GPU layer count never grow; the slot count
/// is the base one or a single slot.
pub proof fn lemma_candidates_respect_locks(
    base: ResolvedRuntimeProfile,
    lock_context: bool,
    lock_parallel: bool,
    lock_gpu_layers: bool,
    i: int,
)
    requires
        0 <= i < runtime_candidates(base, lock_context, lock_parallel, lock_gpu_layers).len(),
    ensures
        ({
            let c = runtime_candidates(base, lock_context, lock_parallel, lock_gpu_layers)[i];
            &&& lock_context ==> c.context_size == base.context_size
            &&& lock_parallel ==> c.parallel_slots == base.parallel_slots
            &&& lock_gpu_layers ==> c.gpu_layers == base.gpu_layers
            &&& c.context_size <= base.context_size
            &&& c.gpu_layers <= base.gpu_layers
            &&& c.parallel_slots == base.parallel_slots || c.parallel_slots == 1
        }),
{
    let cs = context_variants(base, lock_context);
    let ps = parallel_variants(base, lock_parallel);
    let gs = gpu_variants(base, lock_gpu_layers);
    let all = combinations(cs, ps, gs, cs.len() as int);
    let c = runtime_candidates(base, lock_context, lock_parallel, lock_gpu_layers)[i];
    lemma_first_occurrences(all);
    assert(first_occurrences(all).contains(c));
    lemma_combination_members(cs, ps, gs, cs.len() as int, c);
    if !lock_context {
        lemma_fallbacks_at_most(base.context_size, context_steps(), c.context_size);
    }
    if !lock_gpu_layers {
        lemma_fallbacks_at_most(base.gpu_layers, gpu_steps(), c.gpu_layers);
    }
}

/// Each fallback step after the first is smaller than the initial value.
pub proof fn lemma_fallbacks_below(initial: u32, steps: Seq<u32>, i: int)
    requires
        1 <= i < fallbacks(initial, steps).len(),
    ensures
        fallbacks(initial, steps)[i] < initial,
        steps.contains(fallbacks(initial, steps)[i]),
{
    lemma_below(steps, initial);
    assert(fallbacks(initial, steps)[i] == below(steps, initial)[i - 1]);
}

proof fn lemma_below(xs: Seq<u32>, bound: u32)
    ensures
        forall|k: int| 0 <= k < below(xs, bound).len() ==> #[trigger] below(xs, bound)[k] < bound && xs.contains(
            below(xs, bound)[k],
        ),
    decreases xs.len(),
{
    if xs.len() > 0 {
        let t = xs.drop_last();
        lemma_below(t, bound);
        assert forall|k: int| 0 <= k < below(xs, bound).len() implies #[trigger] below(xs, bound)[k] < bound
            && xs.contains(below(xs, bound)[k]) by {
            if k < below(t, bound).len() {
                assert(below(xs, bound)[k] == below(t, bound)[k]);
                let j = choose|j: int| 0 <= j < t.len() && t[j] == below(t, bound)[k];
                assert(xs[j] == t[j]);
            } else {
                assert(below(xs, bound)[k] == xs.last());
                assert(xs[xs.len() - 1] == xs.last());
            }
        }
    }
}

/// The profile a start begins with, or the reason none can be used.
pub open spec fn resolved_profile(
    options: LlamaServerStartOptions,
    model_bytes: Option<u64>,
    env_context: Option<u32>,
    env_parallel: Option<u32>,
    env_layers: Option<u32>,
    detected_vram: Option<u32>,
) -> Result<ResolvedRuntimeProfile, Seq<char>> {
    let intent = intent_of(options);
    let context_size = match options.context_size {
        Some(c) => c,
        None => context_default(intent, env_context),
    };
    let parallel = match options.parallel_slots {
        Some(p) => p,
        None => parallel_default(intent, env_parallel),
    };
    match gpu_layers_choice(options.gpu_layers, env_layers, model_bytes, detected_vram) {
        Ok(g) => Ok(profile(context_size, if parallel >= 1 { parallel } else { 1 }, g)),
        Err(e) => Err(e),
    }
}

pub open spec fn profile_result(r: Result<ResolvedRuntimeProfile, String>) -> Result<ResolvedRuntimeProfile, Seq<char>> {
    match r {
        Ok(p) => Ok(p),
        Err(e) => Err(e@),
    }
}

/// Resolves the profile a start begins with. The environment settings, the
/// model size and the detected GPU memory are passed in.
pub fn resolve_runtime_profile(
    options: &LlamaServerStartOptions,
    model_bytes: Option<u64>,
    env_context: Option<u32>,
    env_parallel: Option<u32>,
    env_layers: Option<u32>,
    detected_vram: Option<u32>,
) -> (r: Result<ResolvedRuntimeProfile, String>)
    ensures
        profile_result(r) == resolved_profile(
            *options,
            model_bytes,
            env_context,
            env_parallel,
            env_layers,
            detected_vram,
        ),
{
    let intent = derive_runtime_intent(options);
    let context_size = match options.context_size {
        Some(c) => c,
        None => default_context_size(intent, model_bytes, env_context),
    };
    let parallel_slots = match options.parallel_slots {
        Some(p) => p,
        None => default_parallel_slots(intent, env_parallel),
    };
    let gpu_layers = match choose_gpu_layers(options.gpu_layers, env_layers, model_bytes, detected_vram) {
        Ok(g) => g,
        Err(e) => {
            return Err(e);
        },
    };
    Ok(
        ResolvedRuntimeProfile {
            context_size,
            parallel_slots: if parallel_slots >= 1 { parallel_slots } else { 1 },
            gpu_layers,
        },
    )
}

/// Position of the first line feed at or after `i`, or the length when none.
pub open spec fn line_end(s: Seq<char>, i: int) -> int
    decreases s.len() - i,
{
    if i >= s.len() {
        s.len() as int
    } else if s[i] == '\n' {
        i
    } else {
        line_end(s, i + 1)
    }
}

proof fn lemma_line_end(s: Seq<char>, i: int)
    requires
        0 <= i <= s.len(),
    ensures
        i <= line_end(s, i) <= s.len(),
    decreases s.len() - i,
{
    if i < s.len() && s[i] != '\n' {
        lemma_line_end(s, i + 1);
    }
}

/// The number on the first line of a GPU memory report (surrounding
/// whitespace, a carriage return among it, allowed); none for an empty report.
pub open spec fn vram_report(s: Seq<char>) -> Option<u32> {
    if s.len() == 0 {
        None
    } else {
        parse_u32_spec(trim_seq(s.take(line_end(s, 0))))
    }
}

/// Reads the total GPU memory, in MiB, from the report of `nvidia-smi`.
pub fn parse_vram_report(text: &str) -> (r: Option<u32>)
    ensures
        r == vram_report(text@),
{
    let v = crate::text::chars_of(text);
    let n = v.len();
    if n == 0 {
        return None;
    }
    let mut i: usize = 0;
    while i < n && v[i] != '\n'
        invariant
            v@ == text@,
            n == v@.len(),
            i <= n,
            line_end(text@, i as int) == line_end(text@, 0),
        decreases n - i,
    {
        i = i + 1;
    }
    proof {
        lemma_line_end(text@, 0);
    }
    let line = text.substring_char(0, i);
    assert(line@ =~= text@.take(i as int));
    parse_u32(trim(line))
}

// ─── Starting the server ────────────────────────────────────────────────────

pub open spec fn reasoning_format_of(value: Option<Seq<char>>) -> Option<Seq<char>> {
    match value {
        Some(v) => if v == ""@ || v == "omit"@ || v == "default"@ {
            None
        } else {
            Some(v)
        },
        None => Some("none"@),
    }
}

/// The `--reasoning-format` to pass, from the configured value when it is set:
/// empty, `omit` or `default` pass none; unset passes `none`.
pub fn reasoning_format(value: Option<&str>) -> (r: Option<String>)
    ensures
        opt_text(r) == reasoning_format_of(opt_str(value)),
{
    match value {
        Some(v) => if str_eq(v, "") || str_eq(v, "omit") || str_eq(v, "default") {
            None
        } else {
            Some(v.to_string())
        },
        None => Some("none".to_string()),
    }
}

pub open spec fn opt_text(s: Option<String>) -> Option<Seq<char>> {
    match s {
        Some(t) => Some(t@),
        None => None,
    }
}

pub open spec fn opt_str(s: Option<&str>) -> Option<Seq<char>> {
    match s {
        Some(t) => Some(t@),
        None => None,
    }
}

/// The llama-server command line for one runtime profile.
pub open spec fn server_arg_list(
    model_path: Seq<char>,
    mmproj_path: Seq<char>,
    port: u16,
    runtime: ResolvedRuntimeProfile,
    reasoning: Option<Seq<char>>,
) -> Seq<Seq<char>> {
    let base = seq![
        "-m"@, model_path, "--mmproj"@, mmproj_path, "--port"@, dec(port as nat), "-c"@,
        dec(runtime.context_size as nat), "-np"@, dec(runtime.parallel_slots as nat), "--flash-attn"@,
        "auto"@, "--cache-type-k"@, "q8_0"@, "--cache-type-v"@, "q8_0"@, "-ngl"@,
        dec(runtime.gpu_layers as nat), "--image-min-tokens"@, "1024"@,
    ];
    match reasoning {
        Some(r) => base + seq!["--reasoning-format"@, r],
        None => base,
    }
}

fn dec_string(n: u32) -> (s: String)
    ensures
        s@ == dec(n as nat),
{
    let mut s = String::new();
    push_dec(&mut s, n);
    s
}

/// The arguments llama-server is started with: model, vision encoder, port,
/// context size, parallel slots, flash attention, quantized KV cache, GPU
/// layers, the image token floor, and the reasoning format when one is set.
pub fn server_args(
    model_path: &str,
    mmproj_path: &str,
    port: u16,
    runtime: ResolvedRuntimeProfile,
    reasoning: Option<&str>,
) -> (v: Vec<String>)
    ensures
        v@.map_values(|s: String| s@) == server_arg_list(model_path@, mmproj_path@, port, runtime, opt_str(reasoning)),
{
    let mut v: Vec<String> = Vec::new();
    v.push("-m".to_string());
    v.push(model_path.to_string());
    v.push("--mmproj".to_string());
    v.push(mmproj_path.to_string());
    v.push("--port".to_string());
    v.push(dec_string(port as u32));
    v.push("-c".to_string());
    v.push(dec_string(runtime.context_size));
    v.push("-np".to_string());
    v.push(dec_string(runtime.parallel_slots));
    v.push("--flash-attn".to_string());
    v.push("auto".to_string());
    v.push("--cache-type-k".to_string());
    v.push("q8_0".to_string());
    v.push("--cache-type-v".to_string());
    v.push("q8_0".to_string());
    v.push("-ngl".to_string());
    v.push(dec_string(runtime.gpu_layers));
    v.push("--image-min-tokens".to_string());
    v.push("1024".to_string());
    match reasoning {
        Some(r) => {
            v.push("--reasoning-format".to_string());
            v.push(r.to_string());
        },
        None => {},
    }
    assert(v@.map_values(|s: String| s@) =~= server_arg_list(
        model_path@,
        mmproj_path@,
        port,
        runtime,
        opt_str(reasoning),
    ));
    v
}

pub open spec fn candidate_failure(runtime: ResolvedRuntimeProfile, err: Seq<char>) -> Seq<char> {
    "c="@ + dec(runtime.context_size as nat) + " np="@ + dec(runtime.parallel_slots as nat) + " ngl="@ + dec(
        runtime.gpu_layers as nat,
    ) + " => "@ + err
}

/// The record of one runtime profile that failed to start.
pub fn candidate_failure_line(runtime: ResolvedRuntimeProfile, err: &str) -> (s: String)
    ensures
        s@ == candidate_failure(runtime, err@),
{
    let mut s = "c=".to_string();
    push_dec(&mut s, runtime.context_size);
    s.append(" np=");
    push_dec(&mut s, runtime.parallel_slots);
    s.append(" ngl=");
    push_dec(&mut s, runtime.gpu_layers);
    s.append(" => ");
    s.append(err);
    s
}

pub open spec fn joined_with(ls: Seq<Seq<char>>, sep: Seq<char>) -> Seq<char>
    decreases ls.len(),
{
    if ls.len() == 0 {
        Seq::empty()
    } else if ls.len() == 1 {
        ls[0]
    } else {
        joined_with(ls.drop_last(), sep) + sep + ls.last()
    }
}

pub open spec fn startup_failure(count: nat, failures: Seq<Seq<char>>) -> Seq<char> {
    "Failed to start llama-server after "@ + dec(count) + " runtime candidate(s): "@ + joined_with(failures, " | "@)
}

/// The error once every runtime profile failed: how many were tried and why each failed.
pub fn startup_failure_message(count: u32, failures: &Vec<String>) -> (s: String)
    ensures
        s@ == startup_failure(count as nat, failures@.map_values(|f: String| f@)),
{
    let mut s = "Failed to start llama-server after ".to_string();
    push_dec(&mut s, count);
    s.append(" runtime candidate(s): ");
    let ghost head = s@;
    let ghost fs = failures@.map_values(|f: String| f@);
    let mut i: usize = 0;
    let mut body = String::new();
    while i < failures.len()
        invariant
            i <= failures@.len(),
            fs == failures@.map_values(|f: String| f@),
            body@ == joined_with(fs.take(i as int), " | "@),
        decreases failures@.len() - i,
    {
        assert(fs.take(i + 1).drop_last() =~= fs.take(i as int));
        assert(fs.take(i + 1).last() == failures@[i as int]@);
        if i > 0 {
            body.append(" | ");
        }
        body.append(failures[i].as_str());
        i = i + 1;
    }
    assert(fs.take(failures@.len() as int) =~= fs);
    s.append(body.as_str());
    s
}

} // verus!
