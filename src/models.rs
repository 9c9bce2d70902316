use vstd::prelude::*;
use crate::config::ModelCapsOverride;
use crate::text::{contains_str, has_infix, lower_of, lowercase, same_text};

verus! {

/// A model as listed to the user, with its capabilities.
#[derive(Debug)]
pub struct ModelInfo {
    pub name: String,
    pub provider: String,
    pub source: String,
    pub streaming: bool,
    pub context_window: Option<u32>,
    pub supports_json: bool,
    pub supports_tools: bool,
    pub modalities: Vec<String>,
}

/// The views of a list of strings.
pub open spec fn texts(v: Seq<String>) -> Seq<Seq<char>> {
    v.map_values(|s: String| s@)
}

/// Capabilities inferred from the names alone: (supports_json,
/// supports_tools, modalities).
pub open spec fn inferred_caps(provider: Seq<char>, model: Seq<char>) -> (bool, bool, Seq<Seq<char>>) {
    let p = lower_of(provider);
    let m = lower_of(model);
    let text = seq!["text"@];
    if p == "mock"@ {
        (true, false, text)
    } else if p == "openai"@ {
        let family = has_infix(m, "gpt-4o"@) || has_infix(m, "gpt-4.1"@);
        (
            family || has_infix(m, "mini"@),
            family || has_infix(m, "o-mini"@),
            if family {
                seq!["text"@, "vision"@]
            } else {
                text
            },
        )
    } else {
        (false, false, text)
    }
}

/// Infers (supports_json, supports_tools, modalities) for a model from
/// its provider and name.
pub fn infer_caps_for_provider_model(provider: &str, model: &str) -> (r: (bool, bool, Vec<String>))
    ensures
        r.0 == inferred_caps(provider@, model@).0,
        r.1 == inferred_caps(provider@, model@).1,
        texts(r.2@) == inferred_caps(provider@, model@).2,
{
    let p = lowercase(provider);
    let mut text_only: Vec<String> = Vec::new();
    text_only.push("text".to_owned());
    proof {
        assert(texts(text_only@) =~= seq!["text"@]);
    }
    if same_text(p.as_str(), "mock") {
        return (true, false, text_only);
    }
    if same_text(p.as_str(), "openai") {
        let m = lowercase(model);
        let family = contains_str(m.as_str(), "gpt-4o") || contains_str(m.as_str(), "gpt-4.1");
        let supports_tools = family || contains_str(m.as_str(), "o-mini");
        let supports_json = family || contains_str(m.as_str(), "mini");
        let modalities = if family {
            let mut v: Vec<String> = Vec::new();
            v.push("text".to_owned());
            v.push("vision".to_owned());
            proof {
                assert(texts(v@) =~= seq!["text"@, "vision"@]);
            }
            v
        } else {
            text_only
        };
        return (supports_json, supports_tools, modalities);
    }
    (false, false, text_only)
}

/// A copy of a list of strings.
pub fn copy_strings(v: &Vec<String>) -> (r: Vec<String>)
    ensures
        texts(r@) == texts(v@),
{
    let mut out: Vec<String> = Vec::new();
    let mut i: usize = 0;
    while i < v.len()
        invariant
            i <= v@.len(),
            out@.len() == i,
            forall|j: int| 0 <= j < i ==> #[trigger] out@[j]@ == v@[j]@,
        decreases v@.len() - i,
    {
        out.push(v[i].clone());
        i = i + 1;
    }
    proof {
        assert(texts(out@) =~= texts(v@));
    }
    out
}

/// Replaces each capability of `mi` that the override sets.
pub fn apply_override(mi: &mut ModelInfo, ovr: &ModelCapsOverride)
    ensures
        final(mi).name == old(mi).name,
        final(mi).provider == old(mi).provider,
        final(mi).source == old(mi).source,
        final(mi).streaming == (match ovr.streaming {
            Some(v) => v,
            None => old(mi).streaming,
        }),
        final(mi).context_window == (match ovr.context_window {
            Some(v) => Some(v),
            None => old(mi).context_window,
        }),
        final(mi).supports_json == (match ovr.supports_json {
            Some(v) => v,
            None => old(mi).supports_json,
        }),
        final(mi).supports_tools == (match ovr.supports_tools {
            Some(v) => v,
            None => old(mi).supports_tools,
        }),
        texts(final(mi).modalities@) == (match ovr.modalities {
            Some(v) => texts(v@),
            None => texts(old(mi).modalities@),
        }),
{
    if let Some(v) = ovr.streaming {
        mi.streaming = v;
    }
    if let Some(v) = ovr.context_window {
        mi.context_window = Some(v);
    }
    if let Some(v) = ovr.supports_json {
        mi.supports_json = v;
    }
    if let Some(v) = ovr.supports_tools {
        mi.supports_tools = v;
    }
    if let Some(v) = &ovr.modalities {
        mi.modalities = copy_strings(v);
    }
}


/// How long a cached model list stays usable, in milliseconds (a day).
pub const MODEL_CACHE_TTL_MS: i64 = 86400000;

/// A cache written at `written_ms` is still usable at `now_ms`.
pub open spec fn cache_fresh(written_ms: int, now_ms: int) -> bool {
    now_ms - written_ms <= MODEL_CACHE_TTL_MS
}

/// Whether a model list cached at `written_ms` may still be used at
/// `now_ms`.
pub fn cache_is_fresh(written_ms: i64, now_ms: i64) -> (r: bool)
    ensures
        r == cache_fresh(written_ms as int, now_ms as int),
{
    (now_ms as i128) - (written_ms as i128) <= MODEL_CACHE_TTL_MS as i128
}


/// Capabilities a provider's metadata endpoint reported for a model.
#[derive(Debug)]
pub struct ReportedCaps {
    pub streaming: bool,
    pub context_window: Option<u32>,
    pub supports_json: bool,
    pub supports_tools: bool,
    pub modalities: Vec<String>,
}

/// The context window assumed from a model's name alone.
pub open spec fn assumed_window(name: Seq<char>) -> Option<u32> {
    if has_infix(name, "gpt-4o"@) {
        Some(128000)
    } else {
        None
    }
}

/// A model from a provider's list: inferred capabilities, replaced by the
/// values its metadata reported (the window and modalities only when
/// reported), then by the configured override.
pub fn remote_model(
    provider: &str,
    name: &str,
    reported: Option<&ReportedCaps>,
    ovr: Option<&ModelCapsOverride>,
) -> (r: ModelInfo)
    ensures
        r.name@ == name@,
        r.provider@ == provider@,
        r.source@ == "remote"@,
        ({
            let (j, t, m) = inferred_caps(provider@, name@);
            let s1 = match reported {
                Some(c) => c.streaming,
                None => true,
            };
            let w1 = match reported {
                Some(c) => if c.context_window is Some { c.context_window } else { assumed_window(name@) },
                None => assumed_window(name@),
            };
            let j1 = match reported {
                Some(c) => c.supports_json,
                None => j,
            };
            let t1 = match reported {
                Some(c) => c.supports_tools,
                None => t,
            };
            let m1 = match reported {
                Some(c) => if c.modalities@.len() > 0 { texts(c.modalities@) } else { m },
                None => m,
            };
            match ovr {
                Some(o) => {
                    &&& r.streaming == (match o.streaming { Some(v) => v, None => s1 })
                    &&& r.context_window == (match o.context_window { Some(v) => Some(v), None => w1 })
                    &&& r.supports_json == (match o.supports_json { Some(v) => v, None => j1 })
                    &&& r.supports_tools == (match o.supports_tools { Some(v) => v, None => t1 })
                    &&& texts(r.modalities@) == (match o.modalities { Some(v) => texts(v@), None => m1 })
                },
                None => {
                    &&& r.streaming == s1
                    &&& r.context_window == w1
                    &&& r.supports_json == j1
                    &&& r.supports_tools == t1
                    &&& texts(r.modalities@) == m1
                },
            }
        }),
{
    let cw: Option<u32> = if contains_str(name, "gpt-4o") { Some(128000) } else { None };
    let (supports_json, supports_tools, modalities) = infer_caps_for_provider_model(provider, name);
    let mut mi = ModelInfo {
        name: name.to_owned(),
        provider: provider.to_owned(),
        source: "remote".to_owned(),
        streaming: true,
        context_window: cw,
        supports_json,
        supports_tools,
        modalities,
    };
    if let Some(c) = reported {
        mi.streaming = c.streaming;
        if c.context_window.is_some() {
            mi.context_window = c.context_window;
        }
        mi.supports_json = c.supports_json;
        mi.supports_tools = c.supports_tools;
        if c.modalities.len() > 0 {
            mi.modalities = copy_strings(&c.modalities);
        }
    }
    if let Some(o) = ovr {
        apply_override(&mut mi, o);
    }
    mi
}

/// Whether some earlier entry has the same name.
pub open spec fn name_seen(ms: Seq<ModelInfo>, upto: int, name: Seq<char>) -> bool {
    exists|j: int| 0 <= j < upto && ms[j].name@ == name
}

/// What merging the first `k` models gives: distinct names, every name
/// seen so far, each kept entry the first of its name.
pub open spec fn merge_inv(orig: Seq<ModelInfo>, k: int, out: Seq<ModelInfo>) -> bool {
    &&& out.len() <= k
    &&& forall|a: int, b: int| 0 <= a < b < out.len() ==> out[a].name@ != out[b].name@
    &&& forall|x: int| 0 <= x < k ==> name_seen(out, out.len() as int, (#[trigger] orig[x]).name@)
    &&& forall|i: int| 0 <= i < out.len() ==> first_of_name(orig, k, #[trigger] out[i])
}

/// `m` is a model of `orig` among its first `k` whose name no earlier one has.
pub open spec fn first_of_name(orig: Seq<ModelInfo>, k: int, m: ModelInfo) -> bool {
    exists|x: int| 0 <= x < k && orig[x] == m && !name_seen(orig, x, m.name@)
}

proof fn lemma_merge_keep(orig: Seq<ModelInfo>, k: int, out: Seq<ModelInfo>)
    requires
        0 <= k < orig.len(),
        merge_inv(orig, k, out),
        forall|j: int| 0 <= j < out.len() ==> out[j].name@ != orig[k].name@,
    ensures
        merge_inv(orig, k + 1, out.push(orig[k])),
{
    let o2 = out.push(orig[k]);
    assert(!name_seen(orig, k, orig[k].name@)) by {
        if name_seen(orig, k, orig[k].name@) {
            let j = choose|j: int| 0 <= j < k && orig[j].name@ == orig[k].name@;
            assert(name_seen(out, out.len() as int, orig[j].name@));
            let w = choose|w: int| 0 <= w < out.len() && out[w].name@ == orig[j].name@;
            assert(out[w].name@ != orig[k].name@);
        }
    }
    assert forall|a: int, b: int| 0 <= a < b < o2.len() implies o2[a].name@ != o2[b].name@ by {
        assert(o2[a] == out[a]);
    }
    assert forall|x: int| 0 <= x < k + 1 implies name_seen(o2, o2.len() as int, (#[trigger] orig[x]).name@) by {
        if x < k {
            assert(name_seen(out, out.len() as int, orig[x].name@));
            let w = choose|w: int| 0 <= w < out.len() && out[w].name@ == orig[x].name@;
            assert(o2[w] == out[w]);
        } else {
            assert(o2[out.len() as int] == orig[x]);
        }
    }
    assert forall|i: int| 0 <= i < o2.len() implies first_of_name(orig, k + 1, #[trigger] o2[i]) by {
        if i < out.len() {
            assert(o2[i] == out[i]);
            assert(first_of_name(orig, k, out[i]));
            let x = choose|x: int| 0 <= x < k && orig[x] == out[i] && !name_seen(orig, x, out[i].name@);
            assert(orig[x] == o2[i]);
        } else {
            assert(orig[k] == o2[i]);
        }
    }
}

proof fn lemma_merge_skip(orig: Seq<ModelInfo>, k: int, out: Seq<ModelInfo>, i: int)
    requires
        0 <= k < orig.len(),
        merge_inv(orig, k, out),
        0 <= i < out.len(),
        out[i].name@ == orig[k].name@,
    ensures
        merge_inv(orig, k + 1, out),
{
    assert forall|x: int| 0 <= x < k + 1 implies name_seen(out, out.len() as int, (#[trigger] orig[x]).name@) by {
        if x == k {
            assert(out[i].name@ == orig[x].name@);
        }
    }
    assert forall|w: int| 0 <= w < out.len() implies first_of_name(orig, k + 1, #[trigger] out[w]) by {
        assert(first_of_name(orig, k, out[w]));
        let x = choose|x: int| 0 <= x < k && orig[x] == out[w] && !name_seen(orig, x, out[w].name@);
        assert(orig[x] == out[w]);
    }
}

/// Keeps the first model of each name, in order.
pub fn merge_models(models: Vec<ModelInfo>) -> (r: Vec<ModelInfo>)
    ensures
        merge_inv(models@, models@.len() as int, r@),
{
    let ghost orig = models@;
    let mut out: Vec<ModelInfo> = Vec::new();
    let mut rest = models;
    let mut k: usize = 0;
    let n = rest.len();
    while rest.len() > 0
        invariant
            n == orig.len(),
            k + rest@.len() == n,
            rest@ == orig.skip(k as int),
            merge_inv(orig, k as int, out@),
        decreases rest@.len(),
    {
        let m = rest.remove(0);
        proof {
            assert(m == orig[k as int]);
            assert(rest@ =~= orig.skip(k + 1));
        }
        let mut i: usize = 0;
        while i < out.len() && !crate::text::same_text(out[i].name.as_str(), m.name.as_str())
            invariant
                i <= out@.len(),
                forall|j: int| 0 <= j < i ==> out@[j].name@ != m.name@,
            decreases out@.len() - i,
        {
            i = i + 1;
        }
        if i == out.len() {
            proof {
                lemma_merge_keep(orig, k as int, out@);
            }
            out.push(m);
        } else {
            proof {
                lemma_merge_skip(orig, k as int, out@, i as int);
            }
        }
        k = k + 1;
    }
    out
}

} // verus!
