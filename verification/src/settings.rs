//! Configuration: hotkey bindings, their resolution and validation.
//!
//! Each configured binding carries a hotkey string and transcription
//! options.  The hotkey strings are resolved to OS-level identifiers by
//! an outside parser; everything proved here takes those resolved
//! identifiers as an input.  No two bindings may resolve to the same
//! identifier: a configuration with duplicates is rejected with an error
//! naming every duplicated binding and its occurrence count.

use vstd::prelude::*;
use vstd::string::StringExecFns;

use crate::groq_client::TranscribeOpts;
use crate::text::{spec_decimal, u64_to_string};

verus! {

/// One configured hotkey binding, as read from the configuration file.
#[derive(Debug)]
pub struct KeyConfig {
    /// The hotkey combination, e.g. `"Super+;"`.
    pub hotkey: String,
    /// Identifier of the speech-to-text model to use.
    pub model: String,
    /// Language of the input audio as an ISO-639-1 code, if known.
    pub language: Option<String>,
    /// Guidance text for style or unfamiliar words, if any.
    pub prompt: Option<String>,
}

/// The whole configuration: the list of hotkey bindings.
#[derive(Debug)]
pub struct Configuration {
    /// The configured bindings, in file order.
    pub keys: Vec<KeyConfig>,
}

/// The transcription options a binding carries.
pub open spec fn spec_opts_of(k: KeyConfig) -> TranscribeOpts {
    TranscribeOpts { model: k.model, language: k.language, prompt: k.prompt }
}

fn clone_opt_string(o: &Option<String>) -> (r: Option<String>)
    ensures
        r == *o,
{
    match o {
        Some(s) => Some(s.clone()),
        None => None,
    }
}

impl KeyConfig {
    /// The transcription options of this binding.
    pub fn opts(&self) -> (r: TranscribeOpts)
        ensures
            r == spec_opts_of(*self),
    {
        TranscribeOpts {
            model: self.model.clone(),
            language: clone_opt_string(&self.language),
            prompt: clone_opt_string(&self.prompt),
        }
    }
}

/// One resolved binding: its hotkey string, the identifier the OS hotkey
/// subsystem reports events under, and the transcription options.
#[derive(Debug)]
pub struct KeyBinding {
    /// The hotkey combination as configured.
    pub hotkey: String,
    /// The identifier the hotkey string resolved to.
    pub id: u32,
    /// The transcription options bound to the hotkey.
    pub opts: TranscribeOpts,
}

/// All resolved bindings; well-formed when no two share an identifier.
#[derive(Debug)]
pub struct KeyRegistry {
    /// The resolved bindings, in configuration order.
    pub bindings: Vec<KeyBinding>,
}

impl KeyRegistry {
    /// No two bindings share a resolved identifier.
    pub open spec fn wf(&self) -> bool {
        forall|i: int, j: int|
            0 <= i < j < self.bindings@.len() ==> self.bindings@[i].id != self.bindings@[j].id
    }

    /// Whether some binding resolved to this identifier.
    pub open spec fn spec_contains(&self, id: u32) -> bool {
        exists|i: int| 0 <= i < self.bindings@.len() && self.bindings@[i].id == id
    }
}

/// One duplicated binding, as named in the configuration error.
#[derive(Debug)]
pub struct DuplicateKey {
    /// The hotkey string of the binding's first occurrence.
    pub hotkey: String,
    /// The resolved identifier that several bindings share.
    pub id: u32,
    /// How many bindings resolve to it.
    pub count: usize,
}

/// Why a configuration was rejected; both ways are fatal at load time.
#[derive(Debug)]
pub enum SettingsError {
    /// This hotkey string could not be parsed.
    InvalidHotkey { hotkey: String },
    /// Several bindings resolve to the same hotkey; every duplicated one
    /// is listed, with its occurrence count.
    DuplicateKeys { duplicates: Vec<DuplicateKey> },
}

/// Relies on `global_hotkey::hotkey::HotKey`'s `FromStr` implementation:
/// the string is parsed as a list of modifiers plus one key, and the
/// struct's public `id` field is the identifier the OS hotkey subsystem
/// later reports events under.  Which strings parse, and to what
/// identifier, is deliberately left unspecified (some of the parser's
/// aliases depend on the build target); everything proved about a
/// configuration takes the resolved identifiers as an input instead.
#[verifier::external_body]
fn resolve_hotkey(s: &String) -> (r: Option<u32>)
{
    match s.parse::<global_hotkey::hotkey::HotKey>() {
        Ok(h) => Some(h.id),
        Err(_) => None,
    }
}

/// How many of the resolved identifiers equal `id`.
pub open spec fn spec_count_id(ids: Seq<Option<u32>>, id: u32) -> nat
    decreases ids.len(),
{
    if ids.len() == 0 {
        0
    } else {
        spec_count_id(ids.drop_last(), id) + if ids.last() == Some(id) {
            1nat
        } else {
            0nat
        }
    }
}

/// Whether two bindings resolved to the same identifier.
pub open spec fn spec_has_duplicates(ids: Seq<Option<u32>>) -> bool {
    exists|i: int, j: int| 0 <= i < j < ids.len() && ids[i] is Some && ids[i] == ids[j]
}

/// Whether `i` is the first position with its resolved identifier.
pub open spec fn spec_is_first_occurrence(ids: Seq<Option<u32>>, i: int) -> bool {
    forall|j: int| 0 <= j < i ==> ids[j] != ids[i]
}

/// The duplicate report is sound and complete for the resolved
/// identifiers: every entry is a real duplicate with its exact count and
/// the hotkey string of its first occurrence, every duplicated identifier
/// has an entry, and no identifier is listed twice.
pub open spec fn spec_duplicates_match(
    keys: Seq<KeyConfig>,
    ids: Seq<Option<u32>>,
    d: Seq<DuplicateKey>,
) -> bool {
    &&& forall|x: int|
        0 <= x < d.len() ==> {
            &&& spec_count_id(ids, d[x].id) == d[x].count
            &&& d[x].count >= 2
            &&& exists|t: int|
                0 <= t < ids.len() && ids[t] == Some(d[x].id) && spec_is_first_occurrence(ids, t)
                    && d[x].hotkey@ == keys[t].hotkey@
        }
    &&& forall|v: u32|
        #[trigger] spec_count_id(ids, v) >= 2 && (exists|t: int|
            0 <= t < ids.len() && ids[t] == Some(v)) ==> exists|x: int|
            0 <= x < d.len() && d[x].id == v
    &&& forall|x: int, y: int| 0 <= x < y < d.len() ==> d[x].id != d[y].id
}

/// What `build_registry` returns, for any resolution of the hotkey
/// strings: the first unresolvable binding's error, else the duplicate
/// report, else the registry with one binding per configured key.
pub open spec fn spec_registry_matches(
    keys: Seq<KeyConfig>,
    ids: Seq<Option<u32>>,
    r: Result<KeyRegistry, SettingsError>,
) -> bool {
    if exists|i: int| 0 <= i < ids.len() && ids[i] is None {
        &&& r matches Err(SettingsError::InvalidHotkey { hotkey })
        &&& exists|i: int|
            {
                &&& 0 <= i < ids.len()
                &&& ids[i] is None
                &&& hotkey@ == keys[i].hotkey@
                &&& forall|j: int| 0 <= j < i ==> ids[j] is Some
            }
    } else if spec_has_duplicates(ids) {
        &&& r matches Err(SettingsError::DuplicateKeys { duplicates })
        &&& spec_duplicates_match(keys, ids, duplicates@)
    } else {
        &&& r matches Ok(reg)
        &&& reg.bindings@.len() == keys.len()
        &&& forall|i: int|
            0 <= i < keys.len() ==> {
                &&& (#[trigger] reg.bindings@[i]).hotkey@ == keys[i].hotkey@
                &&& Some(reg.bindings@[i].id) == ids[i]
                &&& reg.bindings@[i].opts == spec_opts_of(keys[i])
            }
    }
}

proof fn lemma_count_step(ids: Seq<Option<u32>>, j: int, v: u32)
    requires
        0 <= j < ids.len(),
    ensures
        spec_count_id(ids.subrange(0, j + 1), v) == spec_count_id(ids.subrange(0, j), v) + if ids[j]
            == Some(v) {
            1int
        } else {
            0int
        },
{
    let pre = ids.subrange(0, j);
    let post = ids.subrange(0, j + 1);
    assert(post.drop_last() =~= pre);
    assert(post.last() == ids[j]);
}

proof fn lemma_count_ge_one_exists(ids: Seq<Option<u32>>, v: u32)
    requires
        spec_count_id(ids, v) >= 1,
    ensures
        exists|i: int| 0 <= i < ids.len() && ids[i] == Some(v),
    decreases ids.len(),
{
    if ids.last() == Some(v) {
        assert(ids[ids.len() - 1] == Some(v));
    } else {
        lemma_count_ge_one_exists(ids.drop_last(), v);
        let i = choose|i: int| 0 <= i < ids.drop_last().len() && ids.drop_last()[i] == Some(v);
        assert(ids[i] == Some(v));
    }
}

proof fn lemma_exists_count_ge_one(ids: Seq<Option<u32>>, i: int, v: u32)
    requires
        0 <= i < ids.len(),
        ids[i] == Some(v),
    ensures
        spec_count_id(ids, v) >= 1,
    decreases ids.len(),
{
    if i == ids.len() - 1 {
    } else {
        assert(ids.drop_last()[i] == Some(v));
        lemma_exists_count_ge_one(ids.drop_last(), i, v);
    }
}

proof fn lemma_pair_count_ge_two(ids: Seq<Option<u32>>, i: int, j: int, v: u32)
    requires
        0 <= i < j < ids.len(),
        ids[i] == Some(v),
        ids[j] == Some(v),
    ensures
        spec_count_id(ids, v) >= 2,
    decreases ids.len(),
{
    if j == ids.len() - 1 {
        lemma_exists_count_ge_one(ids.drop_last(), i, v);
    } else {
        assert(ids.drop_last()[i] == Some(v));
        assert(ids.drop_last()[j] == Some(v));
        lemma_pair_count_ge_two(ids.drop_last(), i, j, v);
    }
}

proof fn lemma_count_ge_two_pair(ids: Seq<Option<u32>>, v: u32)
    requires
        spec_count_id(ids, v) >= 2,
    ensures
        exists|i: int, j: int| 0 <= i < j < ids.len() && ids[i] == Some(v) && ids[j] == Some(v),
    decreases ids.len(),
{
    if ids.last() == Some(v) {
        lemma_count_ge_one_exists(ids.drop_last(), v);
        let i = choose|i: int| 0 <= i < ids.drop_last().len() && ids.drop_last()[i] == Some(v);
        assert(ids[i] == Some(v));
        assert(ids[ids.len() - 1] == Some(v));
        assert(0 <= i < ids.len() - 1 < ids.len());
    } else {
        lemma_count_ge_two_pair(ids.drop_last(), v);
        let (i, j) = choose|i: int, j: int|
            0 <= i < j < ids.drop_last().len() && ids.drop_last()[i] == Some(v)
                && ids.drop_last()[j] == Some(v);
        assert(ids[i] == Some(v));
        assert(ids[j] == Some(v));
    }
}

proof fn lemma_duplicates_nonempty(keys: Seq<KeyConfig>, ids: Seq<Option<u32>>, d: Seq<DuplicateKey>)
    requires
        spec_has_duplicates(ids),
        spec_duplicates_match(keys, ids, d),
    ensures
        d.len() >= 1,
{
    let (a, b) = choose|a: int, b: int|
        0 <= a < b < ids.len() && ids[a] is Some && ids[a] == ids[b];
    let v = ids[a]->0;
    lemma_pair_count_ge_two(ids, a, b, v);
    assert(ids[a] == Some(v));
    assert(exists|x: int| 0 <= x < d.len() && d[x].id == v);
}

fn find_unresolved(ids: &Vec<Option<u32>>) -> (r: Option<usize>)
    ensures
        match r {
            Some(i) => i < ids@.len() && ids@[i as int] is None && forall|j: int|
                0 <= j < i as int ==> ids@[j] is Some,
            None => forall|j: int| 0 <= j < ids@.len() ==> ids@[j] is Some,
        },
{
    let n = ids.len();
    let mut i: usize = 0;
    while i < n
        invariant
            n == ids@.len(),
            i <= n,
            forall|j: int| 0 <= j < i ==> ids@[j] is Some,
        decreases n - i,
    {
        if ids[i].is_none() {
            return Some(i);
        }
        i += 1;
    }
    None
}

fn count_id(ids: &Vec<Option<u32>>, v: u32) -> (cnt: usize)
    ensures
        cnt == spec_count_id(ids@, v),
{
    let n = ids.len();
    let mut cnt: usize = 0;
    let mut j: usize = 0;
    while j < n
        invariant
            n == ids@.len(),
            j <= n,
            cnt <= j,
            cnt == spec_count_id(ids@.subrange(0, j as int), v),
        decreases n - j,
    {
        proof {
            lemma_count_step(ids@, j as int, v);
        }
        if match ids[j] {
            Some(w) => w == v,
            None => false,
        } {
            cnt += 1;
        }
        j += 1;
    }
    proof {
        assert(ids@.subrange(0, n as int) =~= ids@);
    }
    cnt
}

fn is_first_occurrence(ids: &Vec<Option<u32>>, i: usize) -> (first: bool)
    requires
        i < ids@.len(),
    ensures
        first == spec_is_first_occurrence(ids@, i as int),
{
    let mut j: usize = 0;
    while j < i
        invariant
            j <= i < ids@.len(),
            forall|t: int| 0 <= t < j ==> ids@[t] != ids@[i as int],
        decreases i - j,
    {
        let same = match (&ids[j], &ids[i]) {
            (Some(a), Some(b)) => *a == *b,
            (None, None) => true,
            _ => false,
        };
        if same {
            return false;
        }
        j += 1;
    }
    true
}

#[verifier::rlimit(100)]
fn collect_duplicates(keys: &Vec<KeyConfig>, ids: &Vec<Option<u32>>) -> (dups: Vec<DuplicateKey>)
    requires
        ids@.len() == keys@.len(),
        forall|j: int| 0 <= j < ids@.len() ==> ids@[j] is Some,
    ensures
        spec_duplicates_match(keys@, ids@, dups@),
        dups@.len() == 0 <==> !spec_has_duplicates(ids@),
{
    let n = keys.len();
    let mut dups: Vec<DuplicateKey> = Vec::new();
    let mut i: usize = 0;
    while i < n
        invariant
            n == keys@.len() == ids@.len(),
            i <= n,
            forall|j: int| 0 <= j < n ==> ids@[j] is Some,
            forall|x: int|
                0 <= x < dups@.len() ==> {
                    &&& spec_count_id(ids@, (#[trigger] dups@[x]).id) == dups@[x].count
                    &&& dups@[x].count >= 2
                    &&& exists|t: int|
                        0 <= t < i && ids@[t] == Some(dups@[x].id) && spec_is_first_occurrence(
                            ids@,
                            t,
                        ) && dups@[x].hotkey@ == keys@[t].hotkey@
                },
            forall|v: u32|
                #[trigger] spec_count_id(ids@, v) >= 2 && (exists|t: int|
                    0 <= t < i && ids@[t] == Some(v)) ==> exists|x: int|
                    0 <= x < dups@.len() && dups@[x].id == v,
            forall|x: int, y: int| 0 <= x < y < dups@.len() ==> dups@[x].id != dups@[y].id,
        decreases n - i,
    {
        let ghost dups0 = dups@;
        let id_i = match ids[i] {
            Some(v) => v,
            None => {
                assert(false);
                0
            },
        };
        let first = is_first_occurrence(ids, i);
        let cnt = count_id(ids, id_i);
        if first && cnt >= 2 {
            proof {
                assert forall|x: int| 0 <= x < dups@.len() implies dups@[x].id != id_i by {
                    let t = choose|t: int|
                        0 <= t < i && ids@[t] == Some(dups@[x].id) && spec_is_first_occurrence(
                            ids@,
                            t,
                        ) && dups@[x].hotkey@ == keys@[t].hotkey@;
                    if dups@[x].id == id_i {
                        assert(ids@[t] == ids@[i as int]);
                    }
                }
            }
            dups.push(DuplicateKey { hotkey: keys[i].hotkey.clone(), id: id_i, count: cnt });
        }
        proof {
            assert forall|v: u32|
                #[trigger] spec_count_id(ids@, v) >= 2 && (exists|t: int|
                    0 <= t < i + 1 && ids@[t] == Some(v)) implies exists|x: int|
                0 <= x < dups@.len() && dups@[x].id == v by {
                let t = choose|t: int| 0 <= t < i + 1 && ids@[t] == Some(v);
                if exists|t2: int| 0 <= t2 < i && ids@[t2] == Some(v) {
                    assert(exists|x: int| 0 <= x < dups0.len() && dups0[x].id == v);
                    let x0 = choose|x: int| 0 <= x < dups0.len() && dups0[x].id == v;
                    assert(dups@[x0].id == v);
                } else {
                    assert(t == i as int);
                    assert(v == id_i);
                    assert(first);
                    assert(cnt >= 2);
                    assert(dups@[dups@.len() - 1].id == id_i);
                }
            }
        }
        i += 1;
    }
    proof {
        if dups@.len() > 0 {
            let v = dups@[0].id;
            lemma_count_ge_two_pair(ids@, v);
            assert(spec_has_duplicates(ids@));
        }
        if dups@.len() == 0 && spec_has_duplicates(ids@) {
            let (a, b) = choose|a: int, b: int|
                0 <= a < b < ids@.len() && ids@[a] is Some && ids@[a] == ids@[b];
            let v = ids@[a]->0;
            lemma_pair_count_ge_two(ids@, a, b, v);
            assert(ids@[a] == Some(v));
            assert(exists|x: int| 0 <= x < dups@.len() && dups@[x].id == v);
            assert(false);
        }
    }
    dups
}


fn build_bindings(keys: &Vec<KeyConfig>, ids: &Vec<Option<u32>>) -> (bindings: Vec<KeyBinding>)
    requires
        ids@.len() == keys@.len(),
        forall|j: int| 0 <= j < ids@.len() ==> ids@[j] is Some,
    ensures
        bindings@.len() == keys@.len(),
        forall|j: int|
            0 <= j < keys@.len() ==> {
                &&& (#[trigger] bindings@[j]).hotkey@ == keys@[j].hotkey@
                &&& Some(bindings@[j].id) == ids@[j]
                &&& bindings@[j].opts == spec_opts_of(keys@[j])
            },
{
    let n = keys.len();
    let mut bindings: Vec<KeyBinding> = Vec::new();
    let mut i: usize = 0;
    while i < n
        invariant
            n == keys@.len() == ids@.len(),
            i <= n,
            forall|j: int| 0 <= j < n ==> ids@[j] is Some,
            bindings@.len() == i as int,
            forall|j: int|
                0 <= j < i ==> {
                    &&& (#[trigger] bindings@[j]).hotkey@ == keys@[j].hotkey@
                    &&& Some(bindings@[j].id) == ids@[j]
                    &&& bindings@[j].opts == spec_opts_of(keys@[j])
                },
        decreases n - i,
    {
        let id_i = match ids[i] {
            Some(v) => v,
            None => {
                assert(false);
                0
            },
        };
        bindings.push(KeyBinding { hotkey: keys[i].hotkey.clone(), id: id_i, opts: keys[i].opts() });
        i += 1;
    }
    bindings
}

/// Validate one resolution of the configured hotkeys and build the
/// registry: reject the first unresolvable hotkey, then reject duplicated
/// identifiers naming each with its occurrence count, else hand back one
/// binding per configured key.
pub fn build_registry(keys: &Vec<KeyConfig>, ids: &Vec<Option<u32>>) -> (r: Result<
    KeyRegistry,
    SettingsError,
>)
    requires
        ids@.len() == keys@.len(),
    ensures
        spec_registry_matches(keys@, ids@, r),
        r matches Ok(reg) ==> reg.wf(),
{
    match find_unresolved(ids) {
        Some(i) => {
            return Err(SettingsError::InvalidHotkey { hotkey: keys[i].hotkey.clone() });
        },
        None => {},
    }
    let dups = collect_duplicates(keys, ids);
    if dups.len() > 0 {
        return Err(SettingsError::DuplicateKeys { duplicates: dups });
    }
    let bindings = build_bindings(keys, ids);
    let reg = KeyRegistry { bindings };
    proof {
        assert forall|a: int, b: int|
            0 <= a < b < reg.bindings@.len() implies reg.bindings@[a].id != reg.bindings@[b].id by {
            if reg.bindings@[a].id == reg.bindings@[b].id {
                assert(ids@[a] == ids@[b]);
                assert(ids@[a] is Some);
                assert(spec_has_duplicates(ids@));
            }
        }
    }
    Ok(reg)
}

impl Configuration {
    /// Resolve every configured hotkey and build the registry, rejecting
    /// unresolvable hotkeys and duplicated identifiers as
    /// `build_registry` does for the resolution the parser gave.
    pub fn parse_keys(self) -> (r: Result<KeyRegistry, SettingsError>)
        ensures
            exists|ids: Seq<Option<u32>>|
                ids.len() == self.keys@.len() && spec_registry_matches(self.keys@, ids, r),
            r matches Ok(reg) ==> {
                &&& reg.wf()
                &&& reg.bindings@.len() == self.keys@.len()
                &&& forall|i: int|
                    0 <= i < self.keys@.len() ==> {
                        &&& (#[trigger] reg.bindings@[i]).hotkey@ == self.keys@[i].hotkey@
                        &&& reg.bindings@[i].opts == spec_opts_of(self.keys@[i])
                    }
            },
            r matches Err(SettingsError::DuplicateKeys { duplicates }) ==> duplicates@.len() >= 1
                && forall|x: int| 0 <= x < duplicates@.len() ==> (#[trigger] duplicates@[x]).count >= 2,
            r matches Err(SettingsError::InvalidHotkey { hotkey }) ==> exists|i: int|
                0 <= i < self.keys@.len() && hotkey@ == self.keys@[i].hotkey@,
    {
        let n = self.keys.len();
        let mut ids: Vec<Option<u32>> = Vec::new();
        let mut i: usize = 0;
        while i < n
            invariant
                n == self.keys@.len(),
                i <= n,
                ids@.len() == i as int,
            decreases n - i,
        {
            ids.push(resolve_hotkey(&self.keys[i].hotkey));
            i += 1;
        }
        let r = build_registry(&self.keys, &ids);
        proof {
            assert(spec_registry_matches(self.keys@, ids@, r));
            match &r {
                Err(SettingsError::DuplicateKeys { duplicates }) => {
                    assert(spec_has_duplicates(ids@));
                    lemma_duplicates_nonempty(self.keys@, ids@, duplicates@);
                },
                _ => {},
            }
        }
        r
    }
}

/// A duplicate report line: `- <hotkey> defined <count> times.`
pub open spec fn spec_dup_line(e: DuplicateKey) -> Seq<char> {
    "- "@ + e.hotkey@ + " defined "@ + spec_decimal(e.count as int) + " times."@
}

/// The report lines joined with newlines.
pub open spec fn spec_dup_lines(d: Seq<DuplicateKey>) -> Seq<char>
    decreases d.len(),
{
    if d.len() == 0 {
        Seq::empty()
    } else if d.len() == 1 {
        spec_dup_line(d[0])
    } else {
        spec_dup_lines(d.drop_last()) + "\n"@ + spec_dup_line(d.last())
    }
}

/// The message of a configuration error.
pub open spec fn spec_settings_error_message(e: SettingsError) -> Seq<char> {
    match e {
        SettingsError::InvalidHotkey { hotkey } => "Failed to parse hotkey: "@ + hotkey@,
        SettingsError::DuplicateKeys { duplicates } => "Duplicate keys found on configuration file:\n"@
            + spec_dup_lines(duplicates@),
    }
}

impl SettingsError {
    /// The user-facing message; a duplicate report names every duplicated
    /// binding with its occurrence count, one line each.
    pub fn message(&self) -> (r: String)
        ensures
            r@ == spec_settings_error_message(*self),
    {
        match self {
            SettingsError::InvalidHotkey { hotkey } => {
                let mut s = String::from_str("Failed to parse hotkey: ");
                s.append(hotkey.as_str());
                proof {
                    assert(s@ =~= spec_settings_error_message(*self));
                }
                s
            },
            SettingsError::DuplicateKeys { duplicates } => {
                let mut s = String::from_str("Duplicate keys found on configuration file:\n");
                let n = duplicates.len();
                let mut i: usize = 0;
                while i < n
                    invariant
                        n == duplicates@.len(),
                        i <= n,
                        s@ == "Duplicate keys found on configuration file:\n"@ + spec_dup_lines(
                            duplicates@.subrange(0, i as int),
                        ),
                    decreases n - i,
                {
                    if i > 0 {
                        s.append("\n");
                    }
                    s.append("- ");
                    s.append(duplicates[i].hotkey.as_str());
                    s.append(" defined ");
                    let c = u64_to_string(duplicates[i].count as u64);
                    s.append(c.as_str());
                    s.append(" times.");
                    proof {
                        let pre = duplicates@.subrange(0, i as int);
                        let post = duplicates@.subrange(0, i as int + 1);
                        assert(post.drop_last() =~= pre);
                        assert(post.last() == duplicates@[i as int]);
                        assert(s@ =~= "Duplicate keys found on configuration file:\n"@
                            + spec_dup_lines(post));
                    }
                    i += 1;
                }
                proof {
                    assert(duplicates@.subrange(0, n as int) =~= duplicates@);
                }
                s
            },
        }
    }
}

} // verus!
