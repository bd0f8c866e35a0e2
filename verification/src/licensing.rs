//! Licensed plugins: which plugin libraries are installed, which the
//! license grants and get loaded, and the checks a licensed deployment must
//! pass before it serves requests.

use vstd::prelude::*;
use crate::text::{chars_of, concat3, spec_trim, str_eq, string_of_range, trim};

verus! {

/// Edition the daemon runs as.
#[derive(Clone, Copy, Debug, PartialEq, Eq, Structural)]
pub enum RunMode {
    Oss,
    Licensed,
}

/// Whether `name` occurs in `v`.
pub open spec fn spec_mentions(v: Seq<String>, name: Seq<char>) -> bool {
    exists|i: int| 0 <= i < v.len() && (#[trigger] v[i])@ == name
}

/// Whether a list of ids holds `name`.
pub fn list_has(v: &Vec<String>, name: &str) -> (r: bool)
    ensures
        r == spec_mentions(v@, name@),
{
    let mut i: usize = 0;
    while i < v.len()
        invariant
            i <= v.len(),
            forall|k: int| 0 <= k < i ==> (#[trigger] v@[k])@ != name@,
        decreases v.len() - i,
    {
        if str_eq(v[i].as_str(), name) {
            return true;
        }
        i = i + 1;
    }
    false
}

/// Why a licensed deployment refuses to start.
#[derive(Debug)]
pub enum LicenseError {
    /// Licensed mode without license claims.
    NoClaims,
    /// The license does not grant the security plugin.
    SecurityNotGranted,
    /// The security plugin is installed under `dir` but did not load.
    SecurityFailedToLoad { dir: String },
    /// The security plugin is not installed under `dir`.
    SecurityMissing { dir: String },
    /// The security plugin is loaded but no `auth_secret` is configured.
    AuthSecretRequired,
}

/// Text of a license error.
pub open spec fn spec_license_error_message(e: LicenseError) -> Seq<char> {
    match e {
        LicenseError::NoClaims => "licensed mode requires license claims"@,
        LicenseError::SecurityNotGranted => "Licensed deployment requires the security plugin in your subscription key. Re-issue or renew your license — security is included with every subscription."@,
        LicenseError::SecurityFailedToLoad { dir } => "security plugin is present under "@ + dir@
            + " but failed to load. Check superd logs for dlopen errors."@,
        LicenseError::SecurityMissing { dir } => "Licensed deployment requires security.so (or security.dylib) under "@
            + dir@ + ". The security plugin is included with every subscription."@,
        LicenseError::AuthSecretRequired => "Licensed deployment requires auth_secret in conf/super.toml for the security plugin."@,
    }
}

impl LicenseError {
    pub fn message(&self) -> (r: String)
        ensures
            r@ == spec_license_error_message(*self),
    {
        match self {
            LicenseError::NoClaims => "licensed mode requires license claims".to_owned(),
            LicenseError::SecurityNotGranted => "Licensed deployment requires the security plugin in your subscription key. Re-issue or renew your license — security is included with every subscription.".to_owned(),
            LicenseError::SecurityFailedToLoad { dir } => concat3(
                "security plugin is present under ",
                dir.as_str(),
                " but failed to load. Check superd logs for dlopen errors.",
            ),
            LicenseError::SecurityMissing { dir } => concat3(
                "Licensed deployment requires security.so (or security.dylib) under ",
                dir.as_str(),
                ". The security plugin is included with every subscription.",
            ),
            LicenseError::AuthSecretRequired => "Licensed deployment requires auth_secret in conf/super.toml for the security plugin.".to_owned(),
        }
    }
}

/// Licensed mode requires the license to grant the `security` plugin and
/// that plugin to be loaded. `grants` are the plugins of the license
/// claims (`None`: no claims); `plugins_dir` is shown in the errors.
pub fn validate_licensed_security(
    mode: RunMode,
    grants: Option<&Vec<String>>,
    loaded_plugins: &Vec<String>,
    installed_plugins: &Vec<String>,
    plugins_dir: &str,
) -> (r: Result<(), LicenseError>)
    ensures
        mode == RunMode::Oss ==> r is Ok,
        mode == RunMode::Licensed ==> match grants {
            None => r matches Err(LicenseError::NoClaims),
            Some(g) => if !spec_mentions(g@, "security"@) {
                r matches Err(LicenseError::SecurityNotGranted)
            } else if spec_mentions(loaded_plugins@, "security"@) {
                r is Ok
            } else if spec_mentions(installed_plugins@, "security"@) {
                r matches Err(LicenseError::SecurityFailedToLoad { dir }) && dir@ == plugins_dir@
            } else {
                r matches Err(LicenseError::SecurityMissing { dir }) && dir@ == plugins_dir@
            },
        },
{
    if mode != RunMode::Licensed {
        return Ok(());
    }
    let g = match grants {
        Some(g) => g,
        None => {
            return Err(LicenseError::NoClaims);
        },
    };
    if !list_has(g, "security") {
        return Err(LicenseError::SecurityNotGranted);
    }
    if !list_has(loaded_plugins, "security") {
        if list_has(installed_plugins, "security") {
            return Err(LicenseError::SecurityFailedToLoad { dir: plugins_dir.to_owned() });
        }
        return Err(LicenseError::SecurityMissing { dir: plugins_dir.to_owned() });
    }
    Ok(())
}

/// A licensed deployment with the security plugin loaded requires a
/// non-blank `auth_secret`.
pub fn validate_licensed_auth_secret(
    mode: RunMode,
    loaded_plugins: &Vec<String>,
    auth_secret: Option<&str>,
) -> (r: Result<(), LicenseError>)
    ensures
        r is Err == (mode == RunMode::Licensed && spec_mentions(loaded_plugins@, "security"@) && match auth_secret {
            Some(s) => spec_trim(s@).len() == 0,
            None => true,
        }),
        r is Err ==> r matches Err(LicenseError::AuthSecretRequired),
{
    if mode != RunMode::Licensed {
        return Ok(());
    }
    if !list_has(loaded_plugins, "security") {
        return Ok(());
    }
    match auth_secret {
        Some(s) => {
            let t = trim(s);
            if !t.as_str().is_empty() {
                return Ok(());
            }
        },
        None => {},
    }
    Err(LicenseError::AuthSecretRequired)
}

/// Strict lexicographic order of texts by code point (the order of `str`).
pub open spec fn spec_text_lt(a: Seq<char>, b: Seq<char>) -> bool
    decreases a.len(),
{
    if a.len() == 0 {
        b.len() > 0
    } else if b.len() == 0 {
        false
    } else if a[0] != b[0] {
        a[0] < b[0]
    } else {
        spec_text_lt(a.drop_first(), b.drop_first())
    }
}

/// The order is transitive.
pub proof fn lemma_text_lt_transitive(a: Seq<char>, b: Seq<char>, c: Seq<char>)
    requires
        spec_text_lt(a, b),
        spec_text_lt(b, c),
    ensures
        spec_text_lt(a, c),
    decreases a.len(),
{
    if a.len() > 0 && b.len() > 0 && c.len() > 0 && a[0] == b[0] && b[0] == c[0] {
        lemma_text_lt_transitive(a.drop_first(), b.drop_first(), c.drop_first());
    }
}

/// The order is total: of two texts, one is less or they are equal.
pub proof fn lemma_text_lt_total(a: Seq<char>, b: Seq<char>)
    ensures
        spec_text_lt(a, b) || spec_text_lt(b, a) || a == b,
        !(spec_text_lt(a, b) && spec_text_lt(b, a)),
        !spec_text_lt(a, a),
    decreases a.len(),
{
    if a.len() > 0 && b.len() > 0 {
        lemma_text_lt_total(a.drop_first(), b.drop_first());
        if a[0] == b[0] && a.drop_first() == b.drop_first() {
            assert(a.len() == b.len());
            assert forall|i: int| 0 <= i < a.len() implies a[i] == b[i] by {
                if i > 0 {
                    assert(a[i] == a.drop_first()[i - 1]);
                    assert(b[i] == b.drop_first()[i - 1]);
                }
            }
            assert(a =~= b);
        }
    } else if a.len() == 0 && b.len() == 0 {
        assert(a =~= b);
    }
    if a.len() > 0 {
        lemma_text_lt_total(a.drop_first(), a.drop_first());
    }
}

fn text_lt(a: &Vec<char>, b: &Vec<char>) -> (r: bool)
    ensures
        r == spec_text_lt(a@, b@),
{
    let mut i: usize = 0;
    assert(a@.subrange(0, a@.len() as int) == a@);
    assert(b@.subrange(0, b@.len() as int) == b@);
    while i < a.len() && i < b.len() && a[i] == b[i]
        invariant
            i <= a@.len(),
            i <= b@.len(),
            spec_text_lt(a@, b@) == spec_text_lt(
                a@.subrange(i as int, a@.len() as int),
                b@.subrange(i as int, b@.len() as int),
            ),
        decreases a.len() - i,
    {
        assert(a@.subrange(i as int, a@.len() as int).drop_first() == a@.subrange(
            i + 1,
            a@.len() as int,
        ));
        assert(b@.subrange(i as int, b@.len() as int).drop_first() == b@.subrange(
            i + 1,
            b@.len() as int,
        ));
        i = i + 1;
    }
    if i == a.len() {
        i < b.len()
    } else if i == b.len() {
        false
    } else {
        assert(a@.subrange(i as int, a@.len() as int)[0] == a@[i as int]);
        assert(b@.subrange(i as int, b@.len() as int)[0] == b@[i as int]);
        a[i] < b[i]
    }
}

/// A strictly increasing list of texts (so without repeats).
pub open spec fn spec_strictly_sorted(v: Seq<Seq<char>>) -> bool {
    forall|i: int, j: int| 0 <= i < j < v.len() ==> spec_text_lt(v[i], v[j])
}

/// Views of a list of strings.
pub open spec fn texts(v: Seq<String>) -> Seq<Seq<char>> {
    v.map_values(|s: String| s@)
}

/// Insert `x` into a strictly increasing list unless it is there already.
fn insert_sorted_unique(v: &mut Vec<String>, keys: &mut Vec<Vec<char>>, x: String)
    requires
        old(keys)@.len() == old(v)@.len(),
        forall|i: int| 0 <= i < old(v)@.len() ==> old(keys)@[i]@ == (#[trigger] old(v)@[i])@,
        spec_strictly_sorted(texts(old(v)@)),
    ensures
        final(keys)@.len() == final(v)@.len(),
        forall|i: int| 0 <= i < final(v)@.len() ==> final(keys)@[i]@ == (#[trigger] final(v)@[i])@,
        spec_strictly_sorted(texts(final(v)@)),
        forall|t: Seq<char>|
            texts(final(v)@).contains(t) <==> (texts(old(v)@).contains(t) || t == x@),
{
    let xs = chars_of(x.as_str());
    let ghost v0 = texts(v@);
    let mut j: usize = 0;
    while j < v.len() && text_lt(&keys[j], &xs)
        invariant
            j <= v@.len() == keys@.len(),
            v0 == texts(v@),
            xs@ == x@,
            forall|i: int| 0 <= i < v@.len() ==> keys@[i]@ == (#[trigger] v@[i])@,
            forall|i: int| 0 <= i < j ==> spec_text_lt(v0[i], x@),
        decreases v.len() - j,
    {
        j = j + 1;
    }
    if j < v.len() && str_eq(v[j].as_str(), x.as_str()) {
        assert forall|t: Seq<char>| texts(v@).contains(t) <==> (v0.contains(t) || t == x@) by {
            if t == x@ {
                assert(texts(v@)[j as int] == t);
            }
        }
        return;
    }
    proof {
        if j < v@.len() {
            lemma_text_lt_total(v0[j as int], x@);
        }
    }
    v.insert(j, x);
    keys.insert(j, xs);
    let ghost v1 = texts(v@);
    assert(v1 =~= v0.insert(j as int, xs@));
    assert forall|a: int, b: int| 0 <= a < b < v1.len() implies spec_text_lt(v1[a], v1[b]) by {
        if b == j {
        } else if a == j {
            if b > j + 1 {
                lemma_text_lt_transitive(v1[a], v1[j + 1], v1[b]);
            }
        } else {
        }
    }
    assert forall|t: Seq<char>| v1.contains(t) <==> (v0.contains(t) || t == xs@) by {
        if v0.contains(t) {
            let i = choose|i: int| 0 <= i < v0.len() && v0[i] == t;
            if i < j {
                assert(v1[i] == t);
            } else {
                assert(v1[i + 1] == t);
            }
        }
        if t == xs@ {
            assert(v1[j as int] == t);
        }
        if v1.contains(t) {
            let i = choose|i: int| 0 <= i < v1.len() && v1[i] == t;
            if i < j {
                assert(v0[i] == t);
            } else if i > j {
                assert(v0[i - 1] == t);
            }
        }
    }
}

/// Plugin id of a library file name: the stem of a `.so` or `.dylib`
/// file (the extension is after the last dot, which must not be the
/// first character).
pub open spec fn spec_plugin_id(name: Seq<char>) -> Option<Seq<char>> {
    let k = crate::ui::spec_last_index(name, '.');
    let ext = name.subrange(k + 1, name.len() as int);
    if k > 0 && (ext == "so"@ || ext == "dylib"@) {
        Some(name.subrange(0, k))
    } else {
        None
    }
}

fn plugin_id(name: &str) -> (r: Option<String>)
    ensures
        r matches Some(s) ==> spec_plugin_id(name@) == Some(s@),
        r is None ==> spec_plugin_id(name@) is None,
{
    let cs = chars_of(name);
    let mut i: usize = cs.len();
    assert(cs@.subrange(0, i as int) == cs@);
    while i > 0 && cs[i - 1] != '.'
        invariant
            i <= cs@.len(),
            cs@ == name@,
            crate::ui::spec_last_index(name@, '.') == crate::ui::spec_last_index(
                cs@.subrange(0, i as int),
                '.',
            ),
        decreases i,
    {
        assert(cs@.subrange(0, i as int).drop_last() == cs@.subrange(0, i - 1));
        i = i - 1;
    }
    proof {
        if i > 0 {
            assert(cs@.subrange(0, i as int).last() == '.');
        }
        assert(crate::ui::spec_last_index(name@, '.') + 1 == i);
    }
    if i <= 1 {
        return None;
    }
    let ext = string_of_range(&cs, i, cs.len());
    if str_eq(ext.as_str(), "so") || str_eq(ext.as_str(), "dylib") {
        Some(string_of_range(&cs, 0, i - 1))
    } else {
        None
    }
}

/// Installed plugin ids from the file names of the plugins directory:
/// the ids of the `.so` / `.dylib` files, sorted, each once.
pub fn plugin_ids(file_names: &Vec<String>) -> (r: Vec<String>)
    ensures
        spec_strictly_sorted(texts(r@)),
        forall|t: Seq<char>|
            texts(r@).contains(t) <==> exists|i: int|
                0 <= i < file_names@.len() && spec_plugin_id((#[trigger] file_names@[i])@) == Some(t),
{
    let mut out: Vec<String> = Vec::new();
    let mut keys: Vec<Vec<char>> = Vec::new();
    let mut i: usize = 0;
    while i < file_names.len()
        invariant
            i <= file_names@.len(),
            keys@.len() == out@.len(),
            forall|k: int| 0 <= k < out@.len() ==> keys@[k]@ == (#[trigger] out@[k])@,
            spec_strictly_sorted(texts(out@)),
            forall|t: Seq<char>|
                texts(out@).contains(t) <==> exists|k: int|
                    0 <= k < i && spec_plugin_id((#[trigger] file_names@[k])@) == Some(t),
        decreases file_names.len() - i,
    {
        let ghost before = texts(out@);
        match plugin_id(file_names[i].as_str()) {
            Some(id) => {
                let ghost t0 = id@;
                insert_sorted_unique(&mut out, &mut keys, id);
                assert forall|t: Seq<char>| texts(out@).contains(t) <==> exists|k: int|
                    0 <= k < i + 1 && spec_plugin_id((#[trigger] file_names@[k])@) == Some(t) by {
                    if t == t0 {
                        assert(spec_plugin_id(file_names@[i as int]@) == Some(t));
                    }
                    if exists|k: int| 0 <= k < i + 1 && spec_plugin_id((#[trigger] file_names@[k])@) == Some(t) {
                        let k = choose|k: int| 0 <= k < i + 1 && spec_plugin_id((#[trigger] file_names@[k])@) == Some(t);
                        if k == i {
                            assert(t == t0);
                        }
                    }
                }
            },
            None => {
                assert forall|t: Seq<char>| texts(out@).contains(t) <==> exists|k: int|
                    0 <= k < i + 1 && spec_plugin_id((#[trigger] file_names@[k])@) == Some(t) by {
                    if exists|k: int| 0 <= k < i + 1 && spec_plugin_id((#[trigger] file_names@[k])@) == Some(t) {
                        let k = choose|k: int| 0 <= k < i + 1 && spec_plugin_id((#[trigger] file_names@[k])@) == Some(t);
                        assert(k != i);
                    }
                }
            },
        }
        i = i + 1;
    }
    out
}

/// The installed plugins that the license grants, in installed order.
pub fn plugins_to_load(installed: &Vec<String>, grants: &Vec<String>) -> (r: Vec<String>)
    ensures
        texts(r@) == texts(installed@).filter(|t: Seq<char>| spec_mentions(grants@, t)),
{
    let mut out: Vec<String> = Vec::new();
    let mut i: usize = 0;
    while i < installed.len()
        invariant
            i <= installed@.len(),
            texts(out@) == texts(installed@.subrange(0, i as int)).filter(
                |t: Seq<char>| spec_mentions(grants@, t),
            ),
        decreases installed.len() - i,
    {
        let ghost pre = installed@.subrange(0, i as int);
        assert(texts(installed@.subrange(0, i + 1)) == texts(pre).push(installed@[i as int]@));
        if list_has(grants, installed[i].as_str()) {
            out.push(installed[i].clone());
        }
        assert(texts(out@) == texts(installed@.subrange(0, i + 1)).filter(
            |t: Seq<char>| spec_mentions(grants@, t),
        )) by {
            reveal(Seq::filter);
            assert(texts(installed@.subrange(0, i + 1)).drop_last() == texts(pre));
        }
        i = i + 1;
    }
    assert(installed@.subrange(0, installed@.len() as int) == installed@);
    out
}

/// Outcome of reading and checking the license.
#[derive(Debug)]
pub enum LicenseOutcome {
    /// No license configured.
    Missing,
    /// Signature valid and major version compatible; the granted plugins.
    Valid { grants: Vec<String> },
    /// Bad signature, parse error or version mismatch.
    Invalid { reason: String },
}

/// What the plugin host does at startup.
#[derive(Debug)]
pub struct PluginPlan {
    pub mode: RunMode,
    /// Plugins the license grants (empty unless licensed).
    pub licensed_plugins: Vec<String>,
    /// Installed and granted plugins to load (empty unless licensed).
    pub to_load: Vec<String>,
}

/// Plan of the plugin host: without a valid license (or when the license
/// does not cover this version) the OSS edition runs and no plugin loads;
/// otherwise the installed plugins that the license grants are loaded.
pub fn plan_plugins(outcome: &LicenseOutcome, version_ok: bool, installed: &Vec<String>) -> (r:
    PluginPlan)
    ensures
        match outcome {
            LicenseOutcome::Valid { grants } => if version_ok {
                &&& r.mode == RunMode::Licensed
                &&& texts(r.licensed_plugins@) == texts(grants@)
                &&& texts(r.to_load@) == texts(installed@).filter(
                    |t: Seq<char>| spec_mentions(grants@, t),
                )
            } else {
                r.mode == RunMode::Oss && r.licensed_plugins@.len() == 0 && r.to_load@.len() == 0
            },
            _ => r.mode == RunMode::Oss && r.licensed_plugins@.len() == 0 && r.to_load@.len() == 0,
        },
{
    match outcome {
        LicenseOutcome::Valid { grants } => {
            if version_ok {
                let to_load = plugins_to_load(installed, grants);
                let mut licensed: Vec<String> = Vec::new();
                let mut i: usize = 0;
                while i < grants.len()
                    invariant
                        i <= grants@.len(),
                        texts(licensed@) == texts(grants@.subrange(0, i as int)),
                    decreases grants.len() - i,
                {
                    licensed.push(grants[i].clone());
                    assert(texts(grants@.subrange(0, i + 1)) =~= texts(grants@.subrange(0, i as int)).push(grants@[i as int]@));
                    i = i + 1;
                }
                assert(grants@.subrange(0, grants@.len() as int) == grants@);
                PluginPlan { mode: RunMode::Licensed, licensed_plugins: licensed, to_load }
            } else {
                PluginPlan { mode: RunMode::Oss, licensed_plugins: Vec::new(), to_load: Vec::new() }
            }
        },
        _ => PluginPlan { mode: RunMode::Oss, licensed_plugins: Vec::new(), to_load: Vec::new() },
    }
}

} // verus!
