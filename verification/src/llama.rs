//! Platform rules for the managed llama-server: binary name, which release
//! asset fits the machine, and whether the mood analysis can run at all.
//! The platform and what was probed on the machine come in as arguments.

use vstd::prelude::*;

use crate::binaries::{classify_local_binary, components, local_binary, path_under, LocalBinary, LocalProbe};
use crate::text::{contains_str, contains_text, lowercased, str_eq, to_lowercase, trim, trim_seq};

verus! {

/// The platform the app was built for.
#[derive(Debug, Clone, Copy, Eq, PartialEq, Structural)]
pub enum TargetPlatform {
    Windows,
    MacOsArm64,
    MacOsX64,
    Linux,
    Other,
}

/// How llama-server may run on Linux.
#[derive(Debug, Clone, Copy, Eq, PartialEq, Structural)]
pub enum LinuxRuntimeMode {
    Vulkan,
    CpuExplicit,
    Unsupported,
}

pub open spec fn binary_name(platform: TargetPlatform) -> Seq<char> {
    if platform == TargetPlatform::Windows {
        "llama-server.exe"@
    } else {
        "llama-server"@
    }
}

/// The llama-server binary name on `platform`.
pub fn llama_server_binary_name(platform: TargetPlatform) -> (s: &'static str)
    ensures
        s@ == binary_name(platform),
{
    match platform {
        TargetPlatform::Windows => "llama-server.exe",
        _ => "llama-server",
    }
}

/// The managed llama-server: `bin/llama-server/<name>` under the app data directory.
pub fn get_llama_server_path(data_dir: &str, platform: TargetPlatform) -> (p: Vec<String>)
    ensures
        components(p@) == seq![data_dir@, "bin"@, "llama-server"@, binary_name(platform)],
{
    let name = llama_server_binary_name(platform);
    let rest: [&str; 3] = ["bin", "llama-server", name];
    let p = path_under(data_dir, rest.as_slice());
    assert(rest@.map_values(|s: &str| s@) =~= seq!["bin"@, "llama-server"@, binary_name(platform)]);
    assert(seq![data_dir@] + seq!["bin"@, "llama-server"@, binary_name(platform)] =~= seq![
        data_dir@,
        "bin"@,
        "llama-server"@,
        binary_name(platform),
    ]);
    p
}

/// Where the GGUF models are kept: `models` under the app data directory.
pub fn get_models_dir(data_dir: &str) -> (p: Vec<String>)
    ensures
        components(p@) == seq![data_dir@, "models"@],
{
    let rest: [&str; 1] = ["models"];
    let p = path_under(data_dir, rest.as_slice());
    assert(rest@.map_values(|s: &str| s@) =~= seq!["models"@]);
    assert(seq![data_dir@] + seq!["models"@] =~= seq![data_dir@, "models"@]);
    p
}

/// The language model file.
pub fn get_model_path(data_dir: &str) -> (p: Vec<String>)
    ensures
        components(p@) == seq![data_dir@, "models"@, "Qwen3VL-2B-Instruct-Q4_K_M.gguf"@],
{
    let rest: [&str; 2] = ["models", "Qwen3VL-2B-Instruct-Q4_K_M.gguf"];
    let p = path_under(data_dir, rest.as_slice());
    assert(rest@.map_values(|s: &str| s@) =~= seq!["models"@, "Qwen3VL-2B-Instruct-Q4_K_M.gguf"@]);
    assert(seq![data_dir@] + seq!["models"@, "Qwen3VL-2B-Instruct-Q4_K_M.gguf"@] =~= seq![
        data_dir@,
        "models"@,
        "Qwen3VL-2B-Instruct-Q4_K_M.gguf"@,
    ]);
    p
}

/// The vision encoder file that goes with the language model.
pub fn get_mmproj_path(data_dir: &str) -> (p: Vec<String>)
    ensures
        components(p@) == seq![data_dir@, "models"@, "mmproj-Qwen3VL-2B-Instruct-F16.gguf"@],
{
    let rest: [&str; 2] = ["models", "mmproj-Qwen3VL-2B-Instruct-F16.gguf"];
    let p = path_under(data_dir, rest.as_slice());
    assert(rest@.map_values(|s: &str| s@) =~= seq!["models"@, "mmproj-Qwen3VL-2B-Instruct-F16.gguf"@]);
    assert(seq![data_dir@] + seq!["models"@, "mmproj-Qwen3VL-2B-Instruct-F16.gguf"@] =~= seq![
        data_dir@,
        "models"@,
        "mmproj-Qwen3VL-2B-Instruct-F16.gguf"@,
    ]);
    p
}

/// llama-server is installed when the managed copy is usable or one runs from the PATH.
pub fn is_llama_server_installed(local: LocalProbe, runs_from_path: bool) -> (r: bool)
    ensures
        r == (local_binary(local) == LocalBinary::Usable || runs_from_path),
{
    match classify_local_binary(local) {
        LocalBinary::Usable => true,
        _ => runs_from_path,
    }
}

/// Smallest size, in bytes, the language model must exceed (it is about 1.1 GB).
pub const MIN_MODEL_BYTES: u64 = 500_000_000;

/// Smallest size, in bytes, the vision encoder must exceed (it is about 780 MB).
pub const MIN_MMPROJ_BYTES: u64 = 100_000_000;

pub open spec fn over(size: Option<u64>, min: u64) -> bool {
    match size {
        Some(n) => n > min,
        None => false,
    }
}

/// Both model files are downloaded when each is larger than its floor; a file
/// whose size could not be read counts as missing.
pub fn is_model_downloaded(model_bytes: Option<u64>, mmproj_bytes: Option<u64>) -> (r: bool)
    ensures
        r == (over(model_bytes, MIN_MODEL_BYTES) && over(mmproj_bytes, MIN_MMPROJ_BYTES)),
{
    let llm_ok = match model_bytes {
        Some(n) => n > MIN_MODEL_BYTES,
        None => false,
    };
    let mmproj_ok = match mmproj_bytes {
        Some(n) => n > MIN_MMPROJ_BYTES,
        None => false,
    };
    llm_ok && mmproj_ok
}

/// The configured backend, trimmed and lowercased; none when empty.
pub open spec fn backend_setting(raw: Seq<char>) -> Option<Seq<char>> {
    let v = lowercased(trim_seq(raw));
    if v.len() == 0 {
        None
    } else {
        Some(v)
    }
}

/// Reads the backend override setting.
pub fn normalize_backend(raw: &str) -> (r: Option<String>)
    ensures
        match r {
            Some(s) => backend_setting(raw@) == Some(s@),
            None => backend_setting(raw@) is None,
        },
{
    let v = to_lowercase(trim(raw));
    if v.as_str().unicode_len() == 0 {
        None
    } else {
        Some(v)
    }
}

pub open spec fn linux_mode(backend_override: Option<Seq<char>>, has_vulkan: bool) -> LinuxRuntimeMode {
    match backend_override {
        Some(b) => if b == "cpu"@ {
            LinuxRuntimeMode::CpuExplicit
        } else if b == "vulkan"@ && has_vulkan {
            LinuxRuntimeMode::Vulkan
        } else {
            LinuxRuntimeMode::Unsupported
        },
        None => if has_vulkan {
            LinuxRuntimeMode::Vulkan
        } else {
            LinuxRuntimeMode::Unsupported
        },
    }
}

/// Vulkan when it is available and not overridden; the CPU only when asked for
/// explicitly; anything else is unsupported.
pub fn resolve_linux_runtime_mode(backend_override: Option<&str>, has_vulkan: bool) -> (m: LinuxRuntimeMode)
    ensures
        m == linux_mode(
            match backend_override {
                Some(b) => Some(b@),
                None => None,
            },
            has_vulkan,
        ),
{
    proof {
        reveal_strlit("cpu");
        reveal_strlit("vulkan");
    }
    match backend_override {
        Some(b) => {
            if str_eq(b, "cpu") {
                LinuxRuntimeMode::CpuExplicit
            } else if str_eq(b, "vulkan") {
                if has_vulkan {
                    LinuxRuntimeMode::Vulkan
                } else {
                    LinuxRuntimeMode::Unsupported
                }
            } else {
                LinuxRuntimeMode::Unsupported
            }
        },
        None => {
            if has_vulkan {
                LinuxRuntimeMode::Vulkan
            } else {
                LinuxRuntimeMode::Unsupported
            }
        },
    }
}

pub open spec fn gpu_required_message() -> Seq<char> {
    "Manga mood requires GPU acceleration on Linux. No supported GPU backend detected. Install/enable Vulkan or set KEYTOMUSIC_LLAMA_BACKEND=cpu for unsupported debug mode."@
}

fn gpu_required_text() -> (s: &'static str)
    ensures
        s@ == gpu_required_message(),
{
    "Manga mood requires GPU acceleration on Linux. No supported GPU backend detected. Install/enable Vulkan or set KEYTOMUSIC_LLAMA_BACKEND=cpu for unsupported debug mode."
}

/// Release asset patterns for the platform, in the order they are tried.
pub open spec fn asset_patterns(platform: TargetPlatform, mode: LinuxRuntimeMode) -> Result<Seq<Seq<char>>, Seq<char>> {
    match platform {
        TargetPlatform::Windows => Ok(seq!["win-vulkan-x64"@]),
        TargetPlatform::MacOsArm64 => Ok(seq!["macos-arm64"@]),
        TargetPlatform::MacOsX64 => Ok(seq!["macos-x64"@]),
        TargetPlatform::Linux => match mode {
            LinuxRuntimeMode::Vulkan => Ok(seq!["ubuntu-vulkan-x64"@]),
            LinuxRuntimeMode::CpuExplicit => Ok(seq!["ubuntu-x64"@]),
            LinuxRuntimeMode::Unsupported => Err(gpu_required_message()),
        },
        TargetPlatform::Other => Ok(seq!["ubuntu-x64"@]),
    }
}

pub open spec fn patterns_view(r: Result<Vec<&'static str>, String>) -> Result<Seq<Seq<char>>, Seq<char>> {
    match r {
        Ok(v) => Ok(v@.map_values(|s: &'static str| s@)),
        Err(e) => Err(e@),
    }
}

fn single_pattern(p: &'static str) -> (v: Vec<&'static str>)
    ensures
        v@.map_values(|s: &'static str| s@) == seq![p@],
{
    let mut v: Vec<&'static str> = Vec::new();
    v.push(p);
    assert(v@.map_values(|s: &'static str| s@) =~= seq![p@]);
    v
}

/// The release asset patterns that fit the platform; on Linux the runtime
/// mode decides, and an unsupported one is refused.
pub fn asset_search_patterns(platform: TargetPlatform, mode: LinuxRuntimeMode) -> (r: Result<
    Vec<&'static str>,
    String,
>)
    ensures
        patterns_view(r) == asset_patterns(platform, mode),
{
    match platform {
        TargetPlatform::Windows => Ok(single_pattern("win-vulkan-x64")),
        TargetPlatform::MacOsArm64 => Ok(single_pattern("macos-arm64")),
        TargetPlatform::MacOsX64 => Ok(single_pattern("macos-x64")),
        TargetPlatform::Linux => match mode {
            LinuxRuntimeMode::Vulkan => Ok(single_pattern("ubuntu-vulkan-x64")),
            LinuxRuntimeMode::CpuExplicit => Ok(single_pattern("ubuntu-x64")),
            LinuxRuntimeMode::Unsupported => Err(gpu_required_text().to_string()),
        },
        TargetPlatform::Other => Ok(single_pattern("ubuntu-x64")),
    }
}

pub open spec fn runtime_supported(platform: TargetPlatform, mode: LinuxRuntimeMode) -> Result<(), Seq<char>> {
    if platform == TargetPlatform::Linux && mode == LinuxRuntimeMode::Unsupported {
        Err(gpu_required_message())
    } else {
        Ok(())
    }
}

/// The mood analysis runs everywhere but on Linux without a usable backend.
pub fn ensure_mood_runtime_supported(platform: TargetPlatform, mode: LinuxRuntimeMode) -> (r: Result<(), String>)
    ensures
        match r {
            Ok(()) => runtime_supported(platform, mode) == Ok::<(), Seq<char>>(()),
            Err(e) => runtime_supported(platform, mode) == Err::<(), Seq<char>>(e@),
        },
{
    if platform == TargetPlatform::Linux && mode == LinuxRuntimeMode::Unsupported {
        Err(gpu_required_text().to_string())
    } else {
        Ok(())
    }
}


/// A release asset: its name (empty when it has none) and its download URL.
pub struct ReleaseAsset {
    pub name: String,
    pub url: Option<String>,
}

/// Names of Linux builds for other backends, skipped when the plain CPU build is wanted.
pub open spec fn other_backend_build(name: Seq<char>) -> bool {
    contains_text(name, "rocm"@) || contains_text(name, "vulkan"@) || contains_text(name, "s390x"@)
        || contains_text(name, "opencl"@)
}

/// Asset `name` fits `pattern`.
pub open spec fn asset_fits(pattern: Seq<char>, name: Seq<char>, is_linux: bool) -> bool {
    &&& contains_text(name, pattern)
    &&& !(is_linux && pattern == "ubuntu-x64"@ && other_backend_build(name))
}

/// `(p, a)` is the first fitting pair, patterns tried in order and assets in order for each.
pub open spec fn first_fit(ps: Seq<Seq<char>>, names: Seq<Seq<char>>, is_linux: bool, p: int, a: int) -> bool {
    &&& 0 <= p < ps.len()
    &&& 0 <= a < names.len()
    &&& asset_fits(ps[p], names[a], is_linux)
    &&& forall|q: int, b: int|
        0 <= q < ps.len() && 0 <= b < names.len() && (q < p || (q == p && b < a)) ==> !#[trigger] asset_fits(
            ps[q],
            names[b],
            is_linux,
        )
}

/// Quoted, comma-separated list of the patterns, as they are printed for debugging.
pub open spec fn quoted_list(ps: Seq<Seq<char>>) -> Seq<char>
    decreases ps.len(),
{
    if ps.len() == 0 {
        Seq::empty()
    } else if ps.len() == 1 {
        "\""@ + ps[0] + "\""@
    } else {
        quoted_list(ps.drop_last()) + ", "@ + "\""@ + ps.last() + "\""@
    }
}

pub open spec fn no_release_message(ps: Seq<Seq<char>>) -> Seq<char> {
    "No llama-server release found for platform patterns ["@ + quoted_list(ps) + "]"@
}

pub open spec fn asset_names(assets: Seq<ReleaseAsset>) -> Seq<Seq<char>> {
    assets.map_values(|a: ReleaseAsset| a.name@)
}

/// Platforms served by the Linux builds.
pub open spec fn unix_like(platform: TargetPlatform) -> bool {
    platform == TargetPlatform::Linux || platform == TargetPlatform::Other
}

/// The outcome of picking among `list` with the patterns `ps`: the download URL
/// of the first fitting asset, the first pattern tried first.
pub open spec fn release_pick(ps: Seq<Seq<char>>, list: Seq<ReleaseAsset>, is_linux: bool, r: Result<String, String>) -> bool {
    if exists|p: int, a: int| #[trigger] first_fit(ps, asset_names(list), is_linux, p, a) {
        exists|p: int, a: int|
            #[trigger] first_fit(ps, asset_names(list), is_linux, p, a) && match list[a].url {
                Some(u) => r matches Ok(v) && v@ == u@,
                None => r matches Err(m) && m@ == "No download URL for asset"@,
            }
    } else {
        r matches Err(m) && m@ == no_release_message(ps)
    }
}

/// The download URL of the release asset for the platform.
pub open spec fn release_choice(
    platform: TargetPlatform,
    mode: LinuxRuntimeMode,
    assets: Option<Seq<ReleaseAsset>>,
    r: Result<String, String>,
) -> bool {
    match asset_patterns(platform, mode) {
        Err(e) => r matches Err(m) && m@ == e,
        Ok(ps) => match assets {
            None => r matches Err(m) && m@ == "No assets in release"@,
            Some(list) => release_pick(ps, list, unix_like(platform), r),
        },
    }
}

proof fn lemma_release_found(
    platform: TargetPlatform,
    mode: LinuxRuntimeMode,
    ps: Seq<Seq<char>>,
    list: Seq<ReleaseAsset>,
    p: int,
    a: int,
    r: Result<String, String>,
)
    requires
        asset_patterns(platform, mode) == Ok::<Seq<Seq<char>>, Seq<char>>(ps),
        first_fit(ps, asset_names(list), unix_like(platform), p, a),
        match list[a].url {
            Some(u) => r matches Ok(v) && v@ == u@,
            None => r matches Err(m) && m@ == "No download URL for asset"@,
        },
    ensures
        release_choice(platform, mode, Some(list), r),
{
    assert(release_pick(ps, list, unix_like(platform), r));
}

fn quoted_patterns(ps: &Vec<&'static str>) -> (s: String)
    ensures
        s@ == quoted_list(ps@.map_values(|x: &'static str| x@)),
{
    let ghost pv = ps@.map_values(|x: &'static str| x@);
    let mut s = String::new();
    let mut i: usize = 0;
    while i < ps.len()
        invariant
            pv == ps@.map_values(|x: &'static str| x@),
            i <= ps@.len(),
            s@ == quoted_list(pv.take(i as int)),
        decreases ps@.len() - i,
    {
        let ghost prev = pv.take(i as int);
        assert(pv.take(i + 1).drop_last() =~= prev);
        assert(pv[i as int] == ps@[i as int]@);
        if i > 0 {
            s.append(", ");
        }
        s.append("\"");
        s.append(ps[i]);
        s.append("\"");
        proof {
            reveal_strlit(", ");
            reveal_strlit("\"");
            if i > 0 {
                assert(s@ =~= quoted_list(prev) + ", "@ + "\""@ + pv[i as int] + "\""@);
            } else {
                assert(s@ =~= "\""@ + pv[0] + "\""@);
            }
        }
        i = i + 1;
    }
    assert(pv.take(i as int) =~= pv);
    s
}

/// Picks the download URL of the release asset for the platform.
pub fn release_asset_url(
    platform: TargetPlatform,
    mode: LinuxRuntimeMode,
    assets: Option<&Vec<ReleaseAsset>>,
) -> (r: Result<String, String>)
    ensures
        release_choice(
            platform,
            mode,
            match assets {
                Some(v) => Some(v@),
                None => None,
            },
            r,
        ),
{
    let patterns = match asset_search_patterns(platform, mode) {
        Ok(p) => p,
        Err(e) => {
            return Err(e);
        },
    };
    let ghost ps = patterns@.map_values(|x: &'static str| x@);
    let list = match assets {
        Some(v) => v,
        None => {
            return Err("No assets in release".to_string());
        },
    };
    let is_linux = platform == TargetPlatform::Linux || platform == TargetPlatform::Other;
    let ghost names = asset_names(list@);
    let mut p: usize = 0;
    while p < patterns.len()
        invariant
            ps == patterns@.map_values(|x: &'static str| x@),
            asset_patterns(platform, mode) == Ok::<Seq<Seq<char>>, Seq<char>>(ps),
            is_linux == unix_like(platform),
            assets == Some(list),
            names == asset_names(list@),
            p <= patterns@.len(),
            forall|q: int, b: int| 0 <= q < p && 0 <= b < names.len() ==> !#[trigger] asset_fits(ps[q], names[b], is_linux),
        decreases patterns@.len() - p,
    {
        let pattern = patterns[p];
        let mut a: usize = 0;
        while a < list.len()
            invariant
                ps == patterns@.map_values(|x: &'static str| x@),
                asset_patterns(platform, mode) == Ok::<Seq<Seq<char>>, Seq<char>>(ps),
                is_linux == unix_like(platform),
                assets == Some(list),
                names == asset_names(list@),
                p < patterns@.len(),
                pattern@ == ps[p as int],
                a <= list@.len(),
                forall|q: int, b: int| 0 <= q < p && 0 <= b < names.len() ==> !#[trigger] asset_fits(ps[q], names[b], is_linux),
                forall|b: int| 0 <= b < a ==> !#[trigger] asset_fits(ps[p as int], names[b], is_linux),
            decreases list@.len() - a,
        {
            let name = list[a].name.as_str();
            assert(names[a as int] == list@[a as int].name@);
            proof {
                reveal_strlit("ubuntu-x64");
                reveal_strlit("rocm");
                reveal_strlit("vulkan");
                reveal_strlit("s390x");
                reveal_strlit("opencl");
            }
            let fits = contains_str(name, pattern) && !(is_linux && str_eq(pattern, "ubuntu-x64") && (
            contains_str(name, "rocm") || contains_str(name, "vulkan") || contains_str(name, "s390x")
                || contains_str(name, "opencl")));
            if fits {
                proof {
                    assert(first_fit(ps, names, is_linux, p as int, a as int));
                }
                let r = match &list[a].url {
                    Some(u) => Ok(u.clone()),
                    None => Err("No download URL for asset".to_string()),
                };
                proof {
                    lemma_release_found(platform, mode, ps, list@, p as int, a as int, r);
                }
                return r;
            }
            a = a + 1;
        }
        p = p + 1;
    }
    proof {
        assert forall|q: int, b: int| !first_fit(ps, names, is_linux, q, b) by {}
    }
    let mut msg = "No llama-server release found for platform patterns [".to_string();
    let quoted = quoted_patterns(&patterns);
    msg.append(quoted.as_str());
    msg.append("]");
    Err(msg)
}


/// On Linux the CPU build is used only when asked for by name, and the Vulkan
/// build only when Vulkan is available.
pub proof fn lemma_linux_mode(backend_override: Option<Seq<char>>, has_vulkan: bool)
    ensures
        linux_mode(backend_override, has_vulkan) == LinuxRuntimeMode::CpuExplicit <==> backend_override == Some(
            "cpu"@,
        ),
        linux_mode(backend_override, has_vulkan) == LinuxRuntimeMode::Vulkan ==> has_vulkan,
        has_vulkan && backend_override is None ==> linux_mode(backend_override, has_vulkan) == LinuxRuntimeMode::Vulkan,
{
}

/// The analysis is refused exactly on Linux without a usable backend, and
/// the release patterns are refused in the same case.
pub proof fn lemma_support_matches_patterns(platform: TargetPlatform, mode: LinuxRuntimeMode)
    ensures
        runtime_supported(platform, mode) is Err <==> asset_patterns(platform, mode) is Err,
{
}

// ─── Shared libraries of the Linux build ────────────────────────────────────

/// The unversioned names the Linux llama-server loads, each with the prefix of
/// the versioned files it may point to.
pub open spec fn runtime_links() -> Seq<(Seq<char>, Seq<char>)> {
    seq![
        ("libmtmd.so.0"@, "libmtmd.so.0."@),
        ("libllama.so.0"@, "libllama.so.0."@),
        ("libggml.so.0"@, "libggml.so.0."@),
        ("libggml-base.so.0"@, "libggml-base.so.0."@),
    ]
}

/// The link names and versioned prefixes, in order.
pub fn runtime_link_names() -> (v: Vec<(&'static str, &'static str)>)
    ensures
        v@.map_values(|p: (&'static str, &'static str)| (p.0@, p.1@)) == runtime_links(),
{
    let v = vec![
        ("libmtmd.so.0", "libmtmd.so.0."),
        ("libllama.so.0", "libllama.so.0."),
        ("libggml.so.0", "libggml.so.0."),
        ("libggml-base.so.0", "libggml-base.so.0."),
    ];
    assert(v@.map_values(|p: (&'static str, &'static str)| (p.0@, p.1@)) =~= runtime_links());
    v
}

/// An existing link is kept when it is a symbolic link or a real library (over a megabyte).
pub fn existing_link_ok(is_symlink: bool, len: u64) -> (r: bool)
    ensures
        r == (is_symlink || len > 1_000_000),
{
    is_symlink || len > 1_000_000
}

/// Text order by characters, a proper prefix first; for UTF-8 text it is the
/// byte order.
pub open spec fn text_lt(a: Seq<char>, b: Seq<char>) -> bool
    decreases a.len(),
{
    if a.len() == 0 {
        b.len() > 0
    } else if b.len() == 0 {
        false
    } else if a[0] != b[0] {
        a[0] < b[0]
    } else {
        text_lt(a.drop_first(), b.drop_first())
    }
}

proof fn lemma_text_lt_total(a: Seq<char>, b: Seq<char>)
    ensures
        text_lt(a, b) || text_lt(b, a) || a == b,
        !(text_lt(a, b) && text_lt(b, a)),
    decreases a.len(),
{
    if a.len() > 0 && b.len() > 0 && a[0] == b[0] {
        lemma_text_lt_total(a.drop_first(), b.drop_first());
        if a.drop_first() == b.drop_first() {
            assert(a =~= seq![a[0]] + a.drop_first());
            assert(b =~= seq![b[0]] + b.drop_first());
        }
    } else if a.len() == 0 && b.len() == 0 {
        assert(a =~= b);
    }
}

proof fn lemma_text_lt_trans(a: Seq<char>, b: Seq<char>, c: Seq<char>)
    requires
        text_lt(a, b),
        text_lt(b, c),
    ensures
        text_lt(a, c),
    decreases a.len(),
{
    if a.len() > 0 && b.len() > 0 && c.len() > 0 && a[0] == b[0] && b[0] == c[0] {
        lemma_text_lt_trans(a.drop_first(), b.drop_first(), c.drop_first());
    }
}

/// Whether `a` comes before `b` in text order.
fn text_less(a: &str, b: &str) -> (r: bool)
    ensures
        r == text_lt(a@, b@),
{
    let va = crate::text::chars_of(a);
    let vb = crate::text::chars_of(b);
    let mut i: usize = 0;
    assert(a@.skip(0) =~= a@);
    assert(b@.skip(0) =~= b@);
    while i < va.len() && i < vb.len()
        invariant
            va@ == a@,
            vb@ == b@,
            i <= va@.len(),
            i <= vb@.len(),
            text_lt(a@, b@) == text_lt(a@.skip(i as int), b@.skip(i as int)),
        decreases va@.len() - i,
    {
        if va[i] != vb[i] {
            let r = va[i] < vb[i];
            assert(a@.skip(i as int)[0] == va@[i as int]);
            assert(b@.skip(i as int)[0] == vb@[i as int]);
            return r;
        }
        assert(a@.skip(i as int).drop_first() =~= a@.skip(i + 1));
        assert(b@.skip(i as int).drop_first() =~= b@.skip(i + 1));
        i = i + 1;
    }
    vb.len() > i
}

pub open spec fn is_latest(names: Seq<Seq<char>>, prefix: Seq<char>, n: Seq<char>) -> bool {
    &&& names.contains(n)
    &&& crate::yt_download::starts_with(n, prefix)
    &&& forall|i: int|
        0 <= i < names.len() && crate::yt_download::starts_with(#[trigger] names[i], prefix) ==> !text_lt(n, names[i])
}

/// The versioned library a link should point to: the last, in text order, of
/// the names that begin with `prefix`; none when no name does.
pub fn latest_versioned(names: &Vec<String>, prefix: &str) -> (r: Option<String>)
    ensures
        match r {
            Some(n) => is_latest(components(names@), prefix@, n@),
            None => forall|i: int| 0 <= i < names@.len() ==> !crate::yt_download::starts_with(#[trigger] names@[i]@, prefix@),
        },
{
    let ghost ns = components(names@);
    let mut best: Option<usize> = None;
    let mut i: usize = 0;
    while i < names.len()
        invariant
            i <= names@.len(),
            ns == components(names@),
            match best {
                Some(b) => b < i && crate::yt_download::starts_with(ns[b as int], prefix@) && forall|j: int|
                    0 <= j < i && crate::yt_download::starts_with(#[trigger] ns[j], prefix@) ==> !text_lt(ns[b as int], ns[j]),
                None => forall|j: int| 0 <= j < i ==> !crate::yt_download::starts_with(#[trigger] ns[j], prefix@),
            },
        decreases names@.len() - i,
    {
        assert(ns[i as int] == names@[i as int]@);
        if crate::yt_download::text_starts_with(names[i].as_str(), prefix) {
            match best {
                Some(b) => {
                    assert(ns[b as int] == names@[b as int]@);
                    if text_less(names[b].as_str(), names[i].as_str()) {
                        proof {
                            assert forall|j: int|
                                0 <= j < i + 1 && crate::yt_download::starts_with(#[trigger] ns[j], prefix@) implies !text_lt(
                                ns[i as int],
                                ns[j],
                            ) by {
                                if j < i {
                                    lemma_text_lt_total(ns[b as int], ns[j]);
                                    lemma_text_lt_total(ns[i as int], ns[j]);
                                    if text_lt(ns[i as int], ns[j]) {
                                        lemma_text_lt_trans(ns[b as int], ns[i as int], ns[j]);
                                    }
                                } else {
                                    lemma_text_lt_total(ns[i as int], ns[i as int]);
                                }
                            }
                        }
                        best = Some(i);
                    } else {
                        proof {
                            lemma_text_lt_total(ns[b as int], ns[i as int]);
                        }
                    }
                },
                None => {
                    proof {
                        lemma_text_lt_total(ns[i as int], ns[i as int]);
                    }
                    best = Some(i);
                },
            }
        }
        i = i + 1;
    }
    match best {
        Some(b) => {
            assert(ns[b as int] == names@[b as int]@);
            assert(ns.contains(ns[b as int]));
            Some(names[b].clone())
        },
        None => {
            assert forall|j: int| 0 <= j < names@.len() implies !crate::yt_download::starts_with(#[trigger] names@[j]@, prefix@) by {
                assert(ns[j] == names@[j]@);
            }
            None
        },
    }
}

} // verus!
