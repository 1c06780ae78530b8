//! Lifecycle adapter policy, module-path rules and the browser bootstrap assets.
use vstd::prelude::*;
use crate::text::{
    chars_of, utf8_len, utf8_len_of, push_str, labelled_debug, debug_text, concat2, concat3, starts_with,
    ends_with, contains_seq, all_ascii, is_ascii_alpha, is_ascii_alnum, is_ascii_control,
    starts_with_chars, ends_with_chars, contains_chars, chars_all_ascii, ascii_alpha, ascii_alnum,
    ascii_control,
};
use vstd::utf8::encode_utf8;
use crate::digest::{sha256_bytes, sha256_hex};

verus! {

broadcast use vstd::string::group_string_axioms;

pub const LOADER_PATH: &'static str = "assets/pliego-adapters.js";
pub const POLICY_BOOTSTRAP_PATH: &'static str = "assets/pliego-policy.js";
/// Stable browser contract implemented by this crate.
pub const ADAPTER_API_VERSION: u16 = 1;
/// Maximum serialized props embedded in one adapter island.
pub const MAX_PROPS_BYTES: usize = 32768;

pub const POLICY_BOOTSTRAP_JS: &'static str = "const r=document.documentElement,t=['universal','lite','balanced','signature'],q=globalThis.__PLIEGO_REQUESTED_TIER__,s=Boolean(globalThis.navigator?.connection?.saveData),m=globalThis.__PLIEGO_REQUESTED_MOTION__==='reduced'||Boolean(globalThis.matchMedia?.('(prefers-reduced-motion: reduce)').matches),p=s?'universal':t.includes(q)?q:t.includes(r.dataset.pliegoTier)?r.dataset.pliegoTier:'balanced';r.dataset.pliegoTier=p;r.dataset.pliegoMotion=m?'reduced':'default';globalThis.__PLIEGO_ACTIVE_TIER__=p;\n";

#[derive(Clone, Copy, Debug, Eq, PartialEq, Structural)]
pub enum LoadTrigger {
    Immediate,
    Visible,
    Idle,
    Interaction,
}

impl LoadTrigger {
    pub fn as_str(self) -> (s: &'static str)
        ensures
            s@ == match self {
                LoadTrigger::Immediate => "immediate"@,
                LoadTrigger::Visible => "visible"@,
                LoadTrigger::Idle => "idle"@,
                LoadTrigger::Interaction => "interaction"@,
            },
    {
        match self {
            LoadTrigger::Immediate => "immediate",
            LoadTrigger::Visible => "visible",
            LoadTrigger::Idle => "idle",
            LoadTrigger::Interaction => "interaction",
        }
    }
}

/// Device budget selected for an adapter island.
#[derive(Clone, Copy, Debug, Eq, Ord, PartialEq, PartialOrd, Structural)]
pub enum PerformanceTier {
    Universal,
    Lite,
    Balanced,
    Signature,
}

impl PerformanceTier {
    pub fn as_str(self) -> (s: &'static str)
        ensures
            s@ == match self {
                PerformanceTier::Universal => "universal"@,
                PerformanceTier::Lite => "lite"@,
                PerformanceTier::Balanced => "balanced"@,
                PerformanceTier::Signature => "signature"@,
            },
    {
        match self {
            PerformanceTier::Universal => "universal",
            PerformanceTier::Lite => "lite",
            PerformanceTier::Balanced => "balanced",
            PerformanceTier::Signature => "signature",
        }
    }
}

impl Default for PerformanceTier {
    fn default() -> (t: Self)
        ensures
            t == PerformanceTier::Balanced,
    {
        PerformanceTier::Balanced
    }
}

/// Browser resources an adapter intends to consume.
#[derive(Clone, Copy, Debug, Eq, Ord, PartialEq, PartialOrd, Structural)]
pub enum AdapterCapability {
    Dom,
    Motion,
    SmoothScroll,
    Audio,
    Video,
    WebGl,
    HighFrequencyRaf,
    WebGpu,
}

/// Position of a capability in declaration order, which orders capability sets.
pub open spec fn capability_rank(c: AdapterCapability) -> nat {
    match c {
        AdapterCapability::Dom => 0,
        AdapterCapability::Motion => 1,
        AdapterCapability::SmoothScroll => 2,
        AdapterCapability::Audio => 3,
        AdapterCapability::Video => 4,
        AdapterCapability::WebGl => 5,
        AdapterCapability::HighFrequencyRaf => 6,
        AdapterCapability::WebGpu => 7,
    }
}

impl AdapterCapability {
    pub fn as_str(self) -> (s: &'static str)
        ensures
            s@ == match self {
                AdapterCapability::Dom => "dom"@,
                AdapterCapability::Motion => "motion"@,
                AdapterCapability::SmoothScroll => "smooth-scroll"@,
                AdapterCapability::Audio => "audio"@,
                AdapterCapability::Video => "video"@,
                AdapterCapability::WebGl => "webgl"@,
                AdapterCapability::HighFrequencyRaf => "high-frequency-raf"@,
                AdapterCapability::WebGpu => "webgpu"@,
            },
    {
        match self {
            AdapterCapability::Dom => "dom",
            AdapterCapability::Motion => "motion",
            AdapterCapability::SmoothScroll => "smooth-scroll",
            AdapterCapability::Audio => "audio",
            AdapterCapability::Video => "video",
            AdapterCapability::WebGl => "webgl",
            AdapterCapability::HighFrequencyRaf => "high-frequency-raf",
            AdapterCapability::WebGpu => "webgpu",
        }
    }

    /// Declaration-order position.
    pub fn rank(self) -> (r: u8)
        ensures
            r == capability_rank(self),
    {
        match self {
            AdapterCapability::Dom => 0,
            AdapterCapability::Motion => 1,
            AdapterCapability::SmoothScroll => 2,
            AdapterCapability::Audio => 3,
            AdapterCapability::Video => 4,
            AdapterCapability::WebGl => 5,
            AdapterCapability::HighFrequencyRaf => 6,
            AdapterCapability::WebGpu => 7,
        }
    }
}

/// How the runtime handles the user's reduced-motion preference.
#[derive(Clone, Copy, Debug, Eq, PartialEq, Structural)]
pub enum MotionPolicy {
    Auto,
    Full,
    Reduce,
    SkipWhenReduced,
}

impl MotionPolicy {
    pub fn as_str(self) -> (s: &'static str)
        ensures
            s@ == match self {
                MotionPolicy::Auto => "auto"@,
                MotionPolicy::Full => "full"@,
                MotionPolicy::Reduce => "reduce"@,
                MotionPolicy::SkipWhenReduced => "skip"@,
            },
    {
        match self {
            MotionPolicy::Auto => "auto",
            MotionPolicy::Full => "full",
            MotionPolicy::Reduce => "reduce",
            MotionPolicy::SkipWhenReduced => "skip",
        }
    }
}

impl Default for MotionPolicy {
    fn default() -> (p: Self)
        ensures
            p == MotionPolicy::Auto,
    {
        MotionPolicy::Auto
    }
}

/// How an island behaves when the browser requests reduced network usage.
#[derive(Clone, Copy, Debug, Eq, PartialEq, Structural)]
pub enum DataPolicy {
    Auto,
    Allow,
    SkipOnSaveData,
}

impl DataPolicy {
    pub fn as_str(self) -> (s: &'static str)
        ensures
            s@ == match self {
                DataPolicy::Auto => "auto"@,
                DataPolicy::Allow => "allow"@,
                DataPolicy::SkipOnSaveData => "skip"@,
            },
    {
        match self {
            DataPolicy::Auto => "auto",
            DataPolicy::Allow => "allow",
            DataPolicy::SkipOnSaveData => "skip",
        }
    }
}

impl Default for DataPolicy {
    fn default() -> (p: Self)
        ensures
            p == DataPolicy::Auto,
    {
        DataPolicy::Auto
    }
}

/// Declarative admission policy evaluated before a plugin module is imported.
/// Capabilities form a set, kept ordered by rank without repetition.
#[derive(Clone, Debug)]
pub struct AdapterPolicy {
    min_tier: PerformanceTier,
    motion: MotionPolicy,
    data: DataPolicy,
    capabilities: Vec<AdapterCapability>,
}

/// The abstract content of an adapter policy.
pub struct PolicyModel {
    pub min_tier: PerformanceTier,
    pub motion: MotionPolicy,
    pub data: DataPolicy,
    pub capabilities: Set<AdapterCapability>,
}

impl View for AdapterPolicy {
    type V = PolicyModel;

    closed spec fn view(&self) -> PolicyModel {
        PolicyModel {
            min_tier: self.min_tier,
            motion: self.motion,
            data: self.data,
            capabilities: self.capabilities@.to_set(),
        }
    }
}

impl Default for AdapterPolicy {
    /// Every tier, automatic motion and data handling, no capability.
    fn default() -> (p: AdapterPolicy)
        ensures
            p.wf(),
            p@.min_tier == PerformanceTier::Universal,
            p@.motion == MotionPolicy::Auto,
            p@.data == DataPolicy::Auto,
            p@.capabilities == Set::<AdapterCapability>::empty(),
    {
        AdapterPolicy::new()
    }
}

impl AdapterPolicy {
    /// Capabilities strictly increase by rank.
    pub closed spec fn wf(&self) -> bool {
        forall|i: int, j: int|
            0 <= i < j < self.capabilities.len() ==> capability_rank(self.capabilities@[i])
                < capability_rank(self.capabilities@[j])
    }

    /// The capabilities, ordered by rank.
    pub closed spec fn ordered_capabilities(&self) -> Seq<AdapterCapability> {
        self.capabilities@
    }

    pub fn new() -> (p: AdapterPolicy)
        ensures
            p.wf(),
            p@.min_tier == PerformanceTier::Universal,
            p@.motion == MotionPolicy::Auto,
            p@.data == DataPolicy::Auto,
            p@.capabilities == Set::<AdapterCapability>::empty(),
    {
        let p = AdapterPolicy {
            min_tier: PerformanceTier::Universal,
            motion: MotionPolicy::Auto,
            data: DataPolicy::Auto,
            capabilities: Vec::new(),
        };
        proof {
            assert(p.capabilities@.to_set() =~= Set::<AdapterCapability>::empty());
        }
        p
    }

    pub fn min_tier(self, tier: PerformanceTier) -> (p: AdapterPolicy)
        requires
            self.wf(),
        ensures
            p.wf(),
            p@ == (PolicyModel { min_tier: tier, ..self@ }),
            p.ordered_capabilities() == self.ordered_capabilities(),
    {
        AdapterPolicy { min_tier: tier, ..self }
    }

    pub fn motion(self, policy: MotionPolicy) -> (p: AdapterPolicy)
        requires
            self.wf(),
        ensures
            p.wf(),
            p@ == (PolicyModel { motion: policy, ..self@ }),
            p.ordered_capabilities() == self.ordered_capabilities(),
    {
        AdapterPolicy { motion: policy, ..self }
    }

    pub fn data(self, policy: DataPolicy) -> (p: AdapterPolicy)
        requires
            self.wf(),
        ensures
            p.wf(),
            p@ == (PolicyModel { data: policy, ..self@ }),
            p.ordered_capabilities() == self.ordered_capabilities(),
    {
        AdapterPolicy { data: policy, ..self }
    }

    /// Adds a capability to the set; adding one twice changes nothing.
    pub fn capability(self, capability: AdapterCapability) -> (p: AdapterPolicy)
        requires
            self.wf(),
        ensures
            p.wf(),
            p@ == (PolicyModel { capabilities: self@.capabilities.insert(capability), ..self@ }),
    {
        let mut caps = self.capabilities;
        let rank = capability.rank();
        let mut i: usize = 0;
        while i < caps.len() && caps[i].rank() < rank
            invariant
                i <= caps.len(),
                caps@ == self.capabilities@,
                forall|k: int| 0 <= k < i ==> capability_rank(caps@[k]) < rank,
            decreases caps.len() - i,
        {
            i = i + 1;
        }
        let ghost before = caps@;
        if i < caps.len() && caps[i].rank() == rank {
            proof {
                assert(caps@[i as int] == capability);
                assert(before.to_set().insert(capability) =~= before.to_set());
            }
        } else {
            caps.insert(i, capability);
            proof {
                assert forall|a: int, b: int|
                    0 <= a < b < caps.len() implies capability_rank(caps@[a]) < capability_rank(
                    caps@[b],
                ) by {
                    if b < i {
                    } else if b == i {
                    } else if a < i {
                        assert(caps@[b] == before[b - 1]);
                    } else if a == i {
                        assert(caps@[b] == before[b - 1]);
                    } else {
                        assert(caps@[a] == before[a - 1] && caps@[b] == before[b - 1]);
                    }
                }
                assert forall|c: AdapterCapability| caps@.to_set().contains(c) == before.to_set().insert(
                    capability,
                ).contains(c) by {
                    assert(caps@[i as int] == capability);
                    if before.contains(c) {
                        let k = choose|k: int| 0 <= k < before.len() && before[k] == c;
                        if k < i {
                            assert(caps@[k] == c);
                        } else {
                            assert(caps@[k + 1] == c);
                        }
                    }
                    if caps@.contains(c) {
                        let k = choose|k: int| 0 <= k < caps.len() && caps@[k] == c;
                        if k < i {
                            assert(before[k] == c);
                        } else if k > i {
                            assert(before[k - 1] == c);
                        }
                    }
                }
                assert(caps@.to_set() =~= before.to_set().insert(capability));
            }
        }
        AdapterPolicy { capabilities: caps, ..self }
    }

    pub fn get_min_tier(&self) -> (t: PerformanceTier)
        ensures
            t == self@.min_tier,
    {
        self.min_tier
    }

    pub fn get_motion(&self) -> (m: MotionPolicy)
        ensures
            m == self@.motion,
    {
        self.motion
    }

    pub fn get_data(&self) -> (d: DataPolicy)
        ensures
            d == self@.data,
    {
        self.data
    }

    /// The comma-separated capability names in declaration order, as the
    /// island's capability attribute carries them.
    pub fn capabilities_attribute(&self) -> (s: String)
        requires
            self.wf(),
        ensures
            s@ == joined_capabilities(self.ordered_capabilities()),
    {
        let mut out = String::new();
        let mut i: usize = 0;
        while i < self.capabilities.len()
            invariant
                i <= self.capabilities.len(),
                out@ == joined_capabilities(self.capabilities@.take(i as int)),
            decreases self.capabilities.len() - i,
        {
            let ghost before = out@;
            if i > 0 {
                push_str(&mut out, ",");
            }
            push_str(&mut out, self.capabilities[i].as_str());
            i = i + 1;
            proof {
                let t = self.capabilities@.take(i as int);
                assert(t.drop_last() =~= self.capabilities@.take(i - 1));
            }
        }
        proof {
            assert(self.capabilities@.take(self.capabilities.len() as int) =~= self.capabilities@);
        }
        out
    }
}

pub open spec fn capability_name(c: AdapterCapability) -> Seq<char> {
    match c {
        AdapterCapability::Dom => "dom"@,
        AdapterCapability::Motion => "motion"@,
        AdapterCapability::SmoothScroll => "smooth-scroll"@,
        AdapterCapability::Audio => "audio"@,
        AdapterCapability::Video => "video"@,
        AdapterCapability::WebGl => "webgl"@,
        AdapterCapability::HighFrequencyRaf => "high-frequency-raf"@,
        AdapterCapability::WebGpu => "webgpu"@,
    }
}

/// Capability names joined with commas.
pub open spec fn joined_capabilities(cs: Seq<AdapterCapability>) -> Seq<char>
    decreases cs.len(),
{
    if cs.len() == 0 {
        Seq::empty()
    } else if cs.len() == 1 {
        capability_name(cs[0])
    } else {
        joined_capabilities(cs.drop_last()) + ","@ + capability_name(cs.last())
    }
}

} // verus!

verus! {

/// Errors of adapter validation and bundling.
#[derive(Debug)]
pub enum AdapterError {
    Invalid(String),
    Bundler(String),
}

/// Characters that a bootstrap module specifier may not contain.
pub open spec fn is_specifier_forbidden(c: char) -> bool {
    c == '\\' || c == '%' || c == '?' || c == '#' || c == '\'' || c == '"' || c == '\n' || c == '\r'
}

/// A sibling JavaScript asset, safe to splice into the bootstrap import.
pub open spec fn wasm_module_ok(m: Seq<char>) -> bool {
    &&& starts_with(m, "./"@)
    &&& all_ascii(m)
    &&& utf8_len(m) <= 128
    &&& !contains_seq(m, ".."@)
    &&& !m.skip(2).contains('/')
    &&& forall|i: int| 0 <= i < m.len() ==> !is_specifier_forbidden(#[trigger] m[i])
    &&& forall|i: int| 0 <= i < m.len() ==> !is_ascii_control(#[trigger] m[i]) && m[i] != ' '
    &&& ends_with(m, ".js"@)
}

/// The bytes of the bootstrap script that imports and starts a WASM client.
pub fn wasm_bootstrap(module: &str) -> (r: Result<Vec<u8>, AdapterError>)
    ensures
        r is Ok <==> wasm_module_ok(module@),
        r matches Ok(b) ==> b@ == encode_utf8("import init from '"@ + module@ + "';init();\n"@),
        r matches Err(e) ==> e matches AdapterError::Invalid(m) && m@
            == "WASM bootstrap module must be a sibling JavaScript asset: "@ + debug_text(module@),
{
    proof {
        reveal_strlit("./");
    }
    let m = chars_of(module);
    let dot_slash = chars_of("./");
    let dots = chars_of("..");
    let js = chars_of(".js");
    if !starts_with_chars(m.as_slice(), dot_slash.as_slice()) || !chars_all_ascii(m.as_slice())
        || utf8_len_of(m.as_slice()) > 128 || contains_chars(m.as_slice(), dots.as_slice())
        || !ends_with_chars(m.as_slice(), js.as_slice()) {
        return Err(AdapterError::Invalid(labelled_debug(
            "WASM bootstrap module must be a sibling JavaScript asset: ",
            module,
        )));
    }
    let mut i: usize = 2;
    while i < m.len()
        invariant
            2 <= i <= m.len(),
            m@ == module@,
            forall|k: int| 2 <= k < i ==> m@[k] != '/',
        decreases m.len() - i,
    {
        if m[i] == '/' {
            proof {
                assert(m@.skip(2)[i - 2] == '/');
                assert(module@.skip(2).contains('/'));
            }
            return Err(AdapterError::Invalid(labelled_debug(
                "WASM bootstrap module must be a sibling JavaScript asset: ",
                module,
            )));
        }
        i = i + 1;
    }
    proof {
        assert forall|k: int| 0 <= k < m@.skip(2).len() implies m@.skip(2)[k] != '/' by {
            assert(m@.skip(2)[k] == m@[k + 2]);
        }
    }
    let mut i: usize = 0;
    while i < m.len()
        invariant
            i <= m.len(),
            m@ == module@,
            forall|k: int| 0 <= k < i ==> !is_specifier_forbidden(#[trigger] m@[k]),
            forall|k: int| 0 <= k < i ==> !is_ascii_control(#[trigger] m@[k]) && m@[k] != ' ',
        decreases m.len() - i,
    {
        let c = m[i];
        if c == '\\' || c == '%' || c == '?' || c == '#' || c == '\'' || c == '"' || c == '\n' || c
            == '\r' || ascii_control(c) || c == ' ' {
            proof {
                assert(m@ == module@);
                assert(is_specifier_forbidden(module@[i as int]) || is_ascii_control(module@[i as int]) || module@[i as int] == ' ');
            }
            return Err(AdapterError::Invalid(labelled_debug(
                "WASM bootstrap module must be a sibling JavaScript asset: ",
                module,
            )));
        }
        i = i + 1;
    }
    let script = concat3("import init from '", module, "';init();\n");
    Ok(script.as_str().as_bytes_vec())
}

/// An adapter or asset identifier: an ASCII letter, then letters, digits, `-` or `_`.
pub open spec fn adapter_id_ok(v: Seq<char>) -> bool {
    &&& utf8_len(v) <= 128
    &&& v.len() >= 1
    &&& is_ascii_alpha(v[0])
    &&& forall|i: int| 1 <= i < v.len() ==> is_ascii_alnum(#[trigger] v[i]) || v[i] == '-' || v[i] == '_'
}

/// Checks an adapter identifier.
pub fn validate_id(value: &str) -> (r: Result<(), AdapterError>)
    ensures
        r is Ok <==> adapter_id_ok(value@),
        r matches Err(e) ==> e matches AdapterError::Invalid(m) && m@ == "invalid adapter identifier: "@
            + debug_text(value@),
{
    let v = chars_of(value);
    if v.len() == 0 || !ascii_alpha(v[0]) || utf8_len_of(v.as_slice()) > 128 {
        return Err(AdapterError::Invalid(labelled_debug("invalid adapter identifier: ", value)));
    }
    let mut i: usize = 1;
    while i < v.len()
        invariant
            1 <= i <= v.len(),
            v@ == value@,
            forall|k: int| 1 <= k < i ==> is_ascii_alnum(#[trigger] v@[k]) || v@[k] == '-' || v@[k] == '_',
        decreases v.len() - i,
    {
        let c = v[i];
        if !(ascii_alnum(c) || c == '-' || c == '_') {
            proof {
                assert(v@ == value@);
                assert(!(is_ascii_alnum(value@[i as int]) || value@[i as int] == '-' || value@[i as int] == '_'));
            }
            return Err(AdapterError::Invalid(labelled_debug("invalid adapter identifier: ", value)));
        }
        i = i + 1;
    }
    Ok(())
}

/// A safe, immutable `/assets/*.js` module URL.
pub open spec fn module_path_ok(m: Seq<char>) -> bool {
    &&& starts_with(m, "/assets/"@)
    &&& all_ascii(m)
    &&& !contains_seq(m, ".."@)
    &&& !m.contains('\\')
    &&& !m.contains('%') && !m.contains('?') && !m.contains('#')
    &&& !contains_seq(m, "//"@)
    &&& forall|i: int| 0 <= i < m.len() ==> is_ascii_alnum(#[trigger] m[i]) || m[i] == '/' || m[i] == '-'
        || m[i] == '_' || m[i] == '.'
    &&& forall|i: int| 0 <= i < m.len() ==> !is_ascii_control(#[trigger] m[i]) && m[i] != ' '
    &&& ends_with(m, ".js"@)
}

/// Checks an adapter module URL.
pub fn validate_module_path(module: &str) -> (r: Result<(), AdapterError>)
    ensures
        r is Ok <==> module_path_ok(module@),
        r matches Err(e) ==> e matches AdapterError::Invalid(m) && m@
            == "adapter module must be a safe immutable /assets/*.js path: "@ + debug_text(module@),
{
    let m = chars_of(module);
    let assets = chars_of("/assets/");
    let dots = chars_of("..");
    let slashes = chars_of("//");
    let js = chars_of(".js");
    if !starts_with_chars(m.as_slice(), assets.as_slice()) || !chars_all_ascii(m.as_slice())
        || contains_chars(m.as_slice(), dots.as_slice()) || contains_chars(m.as_slice(), slashes.as_slice())
        || !ends_with_chars(m.as_slice(), js.as_slice()) {
        return Err(AdapterError::Invalid(labelled_debug(
            "adapter module must be a safe immutable /assets/*.js path: ",
            module,
        )));
    }
    let mut i: usize = 0;
    while i < m.len()
        invariant
            i <= m.len(),
            m@ == module@,
            forall|k: int| 0 <= k < i ==> (is_ascii_alnum(#[trigger] m@[k]) || m@[k] == '/' || m@[k] == '-'
                || m@[k] == '_' || m@[k] == '.') && !is_ascii_control(m@[k]) && m@[k] != ' ',
        decreases m.len() - i,
    {
        let c = m[i];
        if !(ascii_alnum(c) || c == '/' || c == '-' || c == '_' || c == '.') || ascii_control(c) || c
            == ' ' {
            proof {
                assert(m@ == module@);
                let x = module@[i as int];
                assert(!(is_ascii_alnum(x) || x == '/' || x == '-' || x == '_' || x == '.') || is_ascii_control(x) || x == ' ');
            }
            return Err(AdapterError::Invalid(labelled_debug(
                "adapter module must be a safe immutable /assets/*.js path: ",
                module,
            )));
        }
        i = i + 1;
    }
    proof {
        assert forall|c: char| m@.contains(c) implies c != '\\' && c != '%' && c != '?' && c != '#' by {
            let k = choose|k: int| 0 <= k < m@.len() && m@[k] == c;
            assert(is_ascii_alnum(m@[k]) || m@[k] == '/' || m@[k] == '-' || m@[k] == '_' || m@[k] == '.');
        }
    }
    Ok(())
}

/// Bytes of the adaptive policy bootstrap script.
pub fn policy_bootstrap_bytes() -> (b: Vec<u8>)
    ensures
        b@ == encode_utf8(POLICY_BOOTSTRAP_JS@),
{
    POLICY_BOOTSTRAP_JS.as_bytes_vec()
}

/// The spelling of `rest` joined below `base`, as `Path::join` writes a
/// relative path with `/` separators.
pub open spec fn path_join(base: Seq<char>, rest: Seq<char>) -> Seq<char> {
    if base.len() == 0 {
        rest
    } else if base.last() == '/' {
        base + rest
    } else {
        base + "/"@ + rest
    }
}

fn join_path(base: &str, rest: &str) -> (r: String)
    ensures
        r@ == path_join(base@, rest@),
{
    proof {
        reveal_strlit("");
    }
    let b = chars_of(base);
    if b.len() == 0 {
        concat2(rest, "")
    } else if b[b.len() - 1] == '/' {
        concat2(base, rest)
    } else {
        concat3(base, "/", rest)
    }
}

/// The esbuild command used to bundle adapter modules.
pub struct EsbuildBundler {
    executable: String,
}

impl EsbuildBundler {
    pub closed spec fn spec_executable(&self) -> Seq<char> {
        self.executable@
    }

    pub fn new(executable: &str) -> (b: EsbuildBundler)
        ensures
            b.spec_executable() == executable@,
    {
        EsbuildBundler { executable: executable.to_owned() }
    }

    /// The npm-installed executable below a workspace root; `windows` selects
    /// the `.cmd` shim.
    pub fn from_workspace(workspace: &str, windows: bool) -> (b: EsbuildBundler)
        ensures
            b.spec_executable() == path_join(
                path_join(workspace@, "node_modules/.bin"@),
                if windows {
                    "esbuild.cmd"@
                } else {
                    "esbuild"@
                },
            ),
    {
        let name = if windows {
            "esbuild.cmd"
        } else {
            "esbuild"
        };
        let bin = join_path(workspace, "node_modules/.bin");
        let executable = join_path(bin.as_str(), name);
        EsbuildBundler { executable }
    }

    pub fn executable(&self) -> (s: &str)
        ensures
            s@ == self.spec_executable(),
    {
        self.executable.as_str()
    }
}

/// A content-addressed JavaScript module produced by the bundler.
pub struct BundledModule {
    pub path: String,
    pub sha256: String,
    pub bytes: Vec<u8>,
}

/// Names the bundler output: `assets/<id>.<first 16 digest digits>.js`.
pub fn bundled_module(entry: &str, asset_id: &str, bytes: Vec<u8>) -> (r: Result<BundledModule, AdapterError>)
    ensures
        r is Ok <==> adapter_id_ok(asset_id@) && bytes@.len() > 0,
        r matches Ok(m) ==> m.sha256@ == sha256_hex(bytes@) && m.bytes@ == bytes@ && m.path@
            == "assets/"@ + asset_id@ + "."@ + sha256_hex(bytes@).take(16) + ".js"@,
        r matches Err(e) ==> (!adapter_id_ok(asset_id@) ==> e matches AdapterError::Invalid(_))
            && (adapter_id_ok(asset_id@) ==> (e matches AdapterError::Bundler(m) && m@
            == "esbuild produced no bytes for "@ + entry@)),
{
    match validate_id(asset_id) {
        Ok(()) => {},
        Err(e) => {
            return Err(e);
        },
    }
    if bytes.len() == 0 {
        proof {
            reveal_strlit("");
        }
        return Err(AdapterError::Bundler(concat2("esbuild produced no bytes for ", entry)));
    }
    let sha256 = sha256_bytes(bytes.as_slice());
    let short = sha256.as_str().substring_char(0, 16);
    let mut path = concat3("assets/", asset_id, ".");
    push_str(&mut path, short);
    push_str(&mut path, ".js");
    proof {
        assert(short@ == sha256_hex(bytes@).take(16));
    }
    Ok(BundledModule { path, sha256, bytes })
}

} // verus!
