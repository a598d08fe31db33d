//! Plain models of the Kubernetes API values that the controller's logic reads.
use vstd::prelude::*;

use crate::json::{Json, JsonView};

verus! {

/// A point in time, as nanoseconds since the Unix epoch.
#[derive(Debug, Clone, Copy, PartialEq, Eq, Structural)]
pub struct Time {
    pub nanosecond: i128,
}

/// The current time.
///
/// Calls `jiff::Timestamp::now` (re-exported by `k8s_openapi`); nothing is claimed of
/// the value, which depends on the clock.
#[verifier::external_body]
pub(crate) fn now() -> (r: Time) {
    Time { nanosecond: k8s_openapi::jiff::Timestamp::now().as_nanosecond() }
}

/// `apiVersion` and `kind` of an object.
#[derive(Debug)]
pub struct TypeMeta {
    pub api_version: String,
    pub kind: String,
}

#[derive(Debug)]
pub struct GroupVersionKind {
    pub group: String,
    pub version: String,
    pub kind: String,
}

/// The API coordinates of a kind of resource.
#[derive(Debug)]
pub struct ApiResource {
    pub group: String,
    pub version: String,
    pub api_version: String,
    pub kind: String,
    pub plural: String,
}

impl TypeMeta {
    pub fn copy(&self) -> (r: TypeMeta)
        ensures
            r.api_version@ == self.api_version@,
            r.kind@ == self.kind@,
    {
        TypeMeta { api_version: self.api_version.clone(), kind: self.kind.clone() }
    }
}

impl ApiResource {
    pub fn copy(&self) -> (r: ApiResource)
        ensures
            r.group@ == self.group@,
            r.version@ == self.version@,
            r.api_version@ == self.api_version@,
            r.kind@ == self.kind@,
            r.plural@ == self.plural@,
    {
        ApiResource {
            group: self.group.clone(),
            version: self.version.clone(),
            api_version: self.api_version.clone(),
            kind: self.kind.clone(),
            plural: self.plural.clone(),
        }
    }
}

/// `apiVersion` for a group and version: the version alone for the core group.
pub open spec fn api_version_of(group: Seq<char>, version: Seq<char>) -> Seq<char> {
    if group.len() == 0 {
        version
    } else {
        group + seq!['/'] + version
    }
}

/// The number of bytes of a character in UTF-8.
pub open spec fn char_utf8_len(c: char) -> nat {
    if (c as u32) < 0x80 {
        1
    } else if (c as u32) < 0x800 {
        2
    } else if (c as u32) < 0x10000 {
        3
    } else {
        4
    }
}

/// The number of bytes of a text in UTF-8 (what `str::len` gives).
pub open spec fn utf8_len(s: Seq<char>) -> nat
    decreases s.len(),
{
    if s.len() == 0 {
        0
    } else {
        utf8_len(s.drop_last()) + char_utf8_len(s.last())
    }
}

/// `str::to_ascii_lowercase`: ASCII capitals become small letters.
pub open spec fn ascii_lowercase(s: Seq<char>) -> Seq<char> {
    s.map_values(|c: char| if 'A' <= c && c <= 'Z' { ((c as u32) + 32) as char } else { c })
}

/// Whether `s` ends with `suffix`.
pub open spec fn ends_with(s: Seq<char>, suffix: Seq<char>) -> bool {
    suffix.len() <= s.len() && s.subrange(s.len() - suffix.len(), s.len() as int) == suffix
}

/// `kube`'s pluralizer: a few special words, then `es` after a final `s`, `x`, `z`, `ch`
/// or `sh`; `ies` in place of a final `y` after a consonant, where the consonant is the
/// character at the byte length minus two (as `chars().nth(word.len() - 2)` reads it);
/// `s` otherwise.
pub open spec fn to_plural(word: Seq<char>) -> Seq<char> {
    if word == "endpoints"@ || word == "endpointslices"@ {
        word
    } else if word == "nodemetrics"@ {
        "nodes"@
    } else if word == "podmetrics"@ {
        "pods"@
    } else if ends_with(word, "s"@) || ends_with(word, "x"@) || ends_with(word, "z"@) || ends_with(
        word,
        "ch"@,
    ) || ends_with(word, "sh"@) {
        word + "es"@
    } else if ends_with(word, "y"@) && 0 <= utf8_len(word) - 2 < word.len() && !(word[utf8_len(word)
        - 2] == 'a' || word[utf8_len(word) - 2] == 'e' || word[utf8_len(word) - 2] == 'i' || word[utf8_len(word)
        - 2] == 'o' || word[utf8_len(word) - 2] == 'u') {
        word.drop_last() + "ies"@
    } else {
        word + "s"@
    }
}

/// The plural resource name that `kube` guesses for a kind: the pluralized lowercase kind.
pub open spec fn guessed_plural(kind: Seq<char>) -> Seq<char> {
    to_plural(ascii_lowercase(kind))
}

/// Whether `kube` can guess a plural for `kind`: its pluralizer looks at the character
/// before a final `y`, and the one-letter kinds `y` and `Y` have none, so that the
/// index it computes underflows.
pub open spec fn plural_guessable(kind: Seq<char>) -> bool {
    !(kind == seq!['y'] || kind == seq!['Y'])
}

/// Whether `kube` can guess a plural for `kind` (see [`plural_guessable`]).
pub fn has_guessable_plural(kind: &str) -> (r: bool)
    ensures
        r == plural_guessable(kind@),
{
    let c = crate::text::chars_of(kind);
    if c.len() == 1 && (c[0] == 'y' || c[0] == 'Y') {
        proof {
            assert(c@ =~= seq!['y'] || c@ =~= seq!['Y']);
        }
        false
    } else {
        proof {
            assert(c@ != seq!['y'] && c@ != seq!['Y']) by {
                if c@ == seq!['y'] || c@ == seq!['Y'] {
                    assert(c@.len() == 1 && c@[0] == c[0]);
                }
            }
        }
        true
    }
}

/// `kube::api::ApiResource::from_gvk`.
///
/// As the source shows, the result keeps the group, version and kind, joins group and
/// version into the `apiVersion` (the version alone for the empty group), and takes
/// the plural that `kube` guesses from the kind (`guessed_plural`, its pluralizer as
/// the source writes it). The
/// pluralizer subtracts 2 from the length of a kind that ends in `y`, which underflows
/// (and panics) for a one-letter kind, hence the `requires`.
#[verifier::external_body]
pub(crate) fn api_resource_from_gvk(gvk: &GroupVersionKind) -> (r: ApiResource)
    requires
        plural_guessable(gvk.kind@),
    ensures
        r.group@ == gvk.group@,
        r.version@ == gvk.version@,
        r.kind@ == gvk.kind@,
        r.api_version@ == api_version_of(gvk.group@, gvk.version@),
        r.plural@ == guessed_plural(gvk.kind@),
{
    let ar = kube::api::ApiResource::from_gvk(
        &kube::api::GroupVersionKind {
            group: gvk.group.clone(),
            version: gvk.version.clone(),
            kind: gvk.kind.clone(),
        },
    );
    ApiResource {
        group: ar.group,
        version: ar.version,
        api_version: ar.api_version,
        kind: ar.kind,
        plural: ar.plural,
    }
}

/// The part of `s` before its first `/`, or the empty sequence when it has none.
pub open spec fn group_of(s: Seq<char>) -> Seq<char> {
    let d = crate::text::first_char_index(s, '/');
    if d < 0 {
        Seq::empty()
    } else {
        s.subrange(0, d)
    }
}

/// The part of `s` after its first `/`, or all of `s` when it has none.
pub open spec fn version_of(s: Seq<char>) -> Seq<char> {
    let d = crate::text::first_char_index(s, '/');
    if d < 0 {
        s
    } else {
        s.subrange(d + 1, s.len() as int)
    }
}

/// `GroupVersionKind::try_from(&TypeMeta)` of `kube`.
///
/// The source splits `apiVersion` at its first `/` into group and version (no `/`:
/// empty group, the whole text as version) and never fails, since `splitn(2, '/')`
/// yields one or two parts.
#[verifier::external_body]
pub(crate) fn group_version_kind_of(type_meta: &TypeMeta) -> (r: GroupVersionKind)
    ensures
        r.group@ == group_of(type_meta.api_version@),
        r.version@ == version_of(type_meta.api_version@),
        r.kind@ == type_meta.kind@,
{
    let tm = kube::core::TypeMeta {
        api_version: type_meta.api_version.clone(),
        kind: type_meta.kind.clone(),
    };
    let gvk = kube::api::GroupVersionKind::try_from(&tm).unwrap();
    GroupVersionKind { group: gvk.group, version: gvk.version, kind: gvk.kind }
}

/// An object of any kind: its type, its `metadata` as JSON, and its other fields.
#[derive(Debug)]
pub struct DynamicObject {
    pub types: Option<TypeMeta>,
    pub metadata: Json,
    pub data: Json,
}

pub struct DynamicObjectView {
    pub types: Option<(Seq<char>, Seq<char>)>,
    pub metadata: JsonView,
    pub data: JsonView,
}

impl View for DynamicObject {
    type V = DynamicObjectView;

    open spec fn view(&self) -> DynamicObjectView {
        DynamicObjectView {
            types: match self.types {
                Some(t) => Some((t.api_version@, t.kind@)),
                None => None,
            },
            metadata: self.metadata@,
            data: self.data@,
        }
    }
}

/// One entry of `metadata.managedFields`: who wrote and when.
#[derive(Debug)]
pub struct ManagedFieldsEntry {
    pub manager: Option<String>,
    pub time: Option<Time>,
}

/// The metadata fields of a `ResourceSync` that the controller reads.
#[derive(Debug)]
pub struct ObjectMeta {
    pub name: Option<String>,
    pub namespace: Option<String>,
    pub uid: Option<String>,
    pub generation: Option<i64>,
    pub resource_version: Option<String>,
    pub deletion_timestamp: Option<Time>,
    pub finalizers: Option<Vec<String>>,
    pub annotations: Option<Vec<(String, String)>>,
    pub managed_fields: Option<Vec<ManagedFieldsEntry>>,
}

/// A status condition.
#[derive(Debug)]
pub struct Condition {
    pub last_transition_time: Time,
    pub message: String,
    pub observed_generation: Option<i64>,
    pub reason: String,
    pub status: String,
    pub type_: String,
}

} // verus!
