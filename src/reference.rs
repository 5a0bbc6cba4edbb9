//! Image references: parsing the shorthand form, defaults, and the
//! facade values derived from a configured image.
use std::collections::HashSet;
use vstd::prelude::*;

use crate::text::{
    find_first, find_last, has_char, index_of_first, index_of_last, lemma_find_first_at, same_text, text_of,
};

verus! {

/// Registry used when a reference names none.
pub const DEFAULT_REGISTRY_HOST: &'static str = "registry-1.docker.io";

/// Namespace given to bare image names on the default registry.
pub const DEFAULT_IMAGE_NAMESPACE: &'static str = "library";

/// Tag used when a reference names none.
pub const DEFAULT_IMAGE_TAG: &'static str = "latest";

/// Destination inside the target root when none is configured.
pub const DEFAULT_PATH: &'static str = "/";

/// Root under which the destination path is mounted.
pub const TARGET_ROOT: &'static str = "/vagga/root";

pub open spec fn default_registry() -> Seq<char> {
    seq!['r', 'e', 'g', 'i', 's', 't', 'r', 'y', '-', '1', '.', 'd', 'o', 'c', 'k', 'e', 'r', '.', 'i', 'o']
}

pub open spec fn default_tag() -> Seq<char> {
    seq!['l', 'a', 't', 'e', 's', 't']
}

pub open spec fn localhost() -> Seq<char> {
    seq!['l', 'o', 'c', 'a', 'l', 'h', 'o', 's', 't']
}

/// The namespace prefix `library/` put before bare names.
pub open spec fn namespace_prefix() -> Seq<char> {
    seq!['l', 'i', 'b', 'r', 'a', 'r', 'y', '/']
}

/// Whether the part before the first `/` names a registry host.
pub open spec fn is_registry_host(h: Seq<char>) -> bool {
    h == localhost() || h.contains('.') || h.contains(':')
}

/// Registry and remaining name of a shorthand reference.
pub open spec fn split_registry(s: Seq<char>) -> (Option<Seq<char>>, Seq<char>) {
    let i = find_first(s, '/', 0);
    if i >= 0 && is_registry_host(s.take(i)) {
        (Some(s.take(i)), s.skip(i + 1))
    } else {
        (None, s)
    }
}

/// Name and tag of a name, split at its last `:`.
pub open spec fn split_tag(name: Seq<char>) -> (Seq<char>, Option<Seq<char>>) {
    let j = find_last(name, ':', name.len() as int);
    if j >= 0 {
        (name.take(j), Some(name.skip(j + 1)))
    } else {
        (name, None)
    }
}

/// The fields that a shorthand reference states: registry, image and tag.
pub open spec fn parse_spec(s: Seq<char>) -> (Option<Seq<char>>, Seq<char>, Option<Seq<char>>) {
    let registry = split_registry(s).0;
    let name = split_tag(split_registry(s).1).0;
    let tag = split_tag(split_registry(s).1).1;
    let image = if registry is None && !name.contains('/') {
        namespace_prefix() + name
    } else {
        name
    };
    (registry, image, tag)
}

/// Registry, image and tag of a shorthand reference, defaults applied.
pub open spec fn resolved(s: Seq<char>) -> (Seq<char>, Seq<char>, Seq<char>) {
    let p = parse_spec(s);
    (
        match p.0 {
            Some(h) => h,
            None => default_registry(),
        },
        p.1,
        match p.2 {
            Some(t) => t,
            None => default_tag(),
        },
    )
}

/// The fields that a shorthand reference sets; the rest keep their defaults.
pub struct ImageParts {
    pub registry: Option<String>,
    pub image: String,
    pub tag: Option<String>,
}

/// The characters of an optional string.
pub open spec fn opt_text(o: Option<String>) -> Option<Seq<char>> {
    match o {
        Some(s) => Some(s@),
        None => None,
    }
}

impl View for ImageParts {
    type V = (Option<Seq<char>>, Seq<char>, Option<Seq<char>>);

    open spec fn view(&self) -> Self::V {
        (opt_text(self.registry), self.image@, opt_text(self.tag))
    }
}

fn is_host(h: &str) -> (r: bool)
    ensures
        r == is_registry_host(h@),
{
    proof {
        reveal_strlit("localhost");
    }
    assert("localhost"@ =~= localhost());
    same_text(h, "localhost") || has_char(h, '.') || has_char(h, ':')
}

/// Parses a shorthand image reference such as `host:5000/ns/img:tag`.
pub fn parse_image(value: &str) -> (r: ImageParts)
    ensures
        r@ == parse_spec(value@),
{
    let n = value.unicode_len();
    let (registry, rest): (Option<String>, &str) = match index_of_first(value, '/') {
        Some(i) => {
            let host = value.substring_char(0, i);
            if is_host(host) {
                (Some(text_of(host)), value.substring_char(i + 1, n))
            } else {
                (None, value)
            }
        },
        None => (None, value),
    };
    assert(opt_text(registry) == split_registry(value@).0);
    assert(rest@ =~= split_registry(value@).1);
    let m = rest.unicode_len();
    let (name, tag): (&str, Option<String>) = match index_of_last(rest, ':') {
        Some(j) => (rest.substring_char(0, j), Some(text_of(rest.substring_char(j + 1, m)))),
        None => (rest, None),
    };
    assert(name@ =~= split_tag(rest@).0);
    assert(opt_text(tag) =~= split_tag(rest@).1);
    let image = if registry.is_none() && !has_char(name, '/') {
        proof {
            reveal_strlit("library/");
        }
        assert("library/"@ =~= namespace_prefix());
        String::from_str("library/").concat(name)
    } else {
        text_of(name)
    };
    ImageParts { registry, image, tag }
}

/// A configured image step: where to fetch the image and where to put it.
pub struct DockerImage {
    pub registry: String,
    pub image: String,
    pub tag: String,
    pub insecure: Option<bool>,
    pub path: String,
}

/// A value contributed to the step's input digest.
pub enum FieldValue {
    Text(String),
    Flag(Option<bool>),
}

/// An absolute path starts at the root.
pub open spec fn is_absolute(p: Seq<char>) -> bool {
    p.len() > 0 && p[0] == '/'
}

/// The host of a registry address, without its port.
pub open spec fn host_part(registry: Seq<char>) -> Seq<char> {
    let i = find_first(registry, ':', 0);
    if i >= 0 {
        registry.take(i)
    } else {
        registry
    }
}

/// Whether `set` holds a string equal to `h`.
pub open spec fn listed(set: Set<String>, h: Seq<char>) -> bool {
    exists|s: String| set.contains(s) && s@ == h
}

/// Whether the field `f` is the text `v` under the name `name`.
pub open spec fn is_text_field(f: (&str, FieldValue), name: Seq<char>, v: Seq<char>) -> bool {
    f.0@ == name && match f.1 {
        FieldValue::Text(t) => t@ == v,
        FieldValue::Flag(_) => false,
    }
}

/// The registry token scope that allows pulling `image`.
pub fn auth_scope(image: &str) -> (r: String)
    ensures
        r@ == "repository:"@ + image@ + ":pull"@,
{
    text_of("repository:").concat(image).concat(":pull")
}

/// Relies on HashSet::contains: true exactly when the set holds a string
/// equal to `key`.
#[verifier::external_body]
fn set_contains(set: &HashSet<String>, key: &str) -> (r: bool)
    ensures
        r == listed(set@, key@),
{
    set.contains(key)
}

/// Whether `registry` is insecure by the global list; the port is ignored.
pub fn is_insecure_registry(registry: &str, insecure_registries: &HashSet<String>) -> (r: bool)
    ensures
        r == listed(insecure_registries@, host_part(registry@)),
{
    match index_of_first(registry, ':') {
        Some(i) => set_contains(insecure_registries, registry.substring_char(0, i)),
        None => set_contains(insecure_registries, registry),
    }
}

impl DockerImage {
    /// The destination path is absolute.
    pub open spec fn wf(&self) -> bool {
        is_absolute(self.path@)
    }

    /// Applies the defaults to the fields a reference left unset.
    pub fn from_parts(parts: ImageParts) -> (r: DockerImage)
        ensures
            r.wf(),
            r.registry@ == match opt_text(parts.registry) {
                Some(h) => h,
                None => default_registry(),
            },
            r.image@ == parts.image@,
            r.tag@ == match opt_text(parts.tag) {
                Some(t) => t,
                None => default_tag(),
            },
            r.insecure is None,
            r.path@ == seq!['/'],
    {
        proof {
            reveal_strlit("registry-1.docker.io");
            reveal_strlit("latest");
            reveal_strlit("/");
        }
        assert(DEFAULT_REGISTRY_HOST@ =~= default_registry());
        assert(DEFAULT_IMAGE_TAG@ =~= default_tag());
        let registry = match parts.registry {
            Some(h) => h,
            None => text_of(DEFAULT_REGISTRY_HOST),
        };
        let tag = match parts.tag {
            Some(t) => t,
            None => text_of(DEFAULT_IMAGE_TAG),
        };
        let path = text_of(DEFAULT_PATH);
        assert(path@ =~= seq!['/']);
        DockerImage { registry, image: parts.image, tag, insecure: None, path }
    }

    /// The step configured by a shorthand reference.
    pub fn from_reference(value: &str) -> (r: DockerImage)
        ensures
            r.wf(),
            (r.registry@, r.image@, r.tag@) == resolved(value@),
            r.insecure is None,
            r.path@ == seq!['/'],
    {
        DockerImage::from_parts(parse_image(value))
    }

    /// The step's name.
    pub fn name(&self) -> (r: &'static str)
        ensures
            r@ == "DockerImage"@,
    {
        "DockerImage"
    }

    /// The step depends on no other step.
    pub fn is_dependent_on(&self) -> (r: Option<&str>)
        ensures
            r is None,
    {
        None
    }

    /// Whether to talk plain HTTP: the explicit setting, else the global list.
    pub fn insecure_for(&self, insecure_registries: &HashSet<String>) -> (r: bool)
        ensures
            r == match self.insecure {
                Some(b) => b,
                None => listed(insecure_registries@, host_part(self.registry@)),
            },
    {
        match self.insecure {
            Some(b) => b,
            None => is_insecure_registry(self.registry.as_str(), insecure_registries),
        }
    }

    /// Where the image is unpacked: the destination path under the target root.
    pub fn destination(&self) -> (r: String)
        requires
            self.wf(),
        ensures
            r@ == TARGET_ROOT@ + self.path@,
    {
        text_of(TARGET_ROOT).concat(self.path.as_str())
    }

    /// The fields of the input digest, in the order they are hashed.
    pub fn hash_fields(&self) -> (r: Vec<(&'static str, FieldValue)>)
        ensures
            r@.len() == 5,
            is_text_field(r@[0], "registry"@, self.registry@),
            is_text_field(r@[1], "image"@, self.image@),
            is_text_field(r@[2], "tag"@, self.tag@),
            r@[3].0@ == "insecure"@,
            r@[3].1 == FieldValue::Flag(self.insecure),
            is_text_field(r@[4], "path"@, self.path@),
    {
        let mut r: Vec<(&'static str, FieldValue)> = Vec::new();
        r.push(("registry", FieldValue::Text(self.registry.clone())));
        r.push(("image", FieldValue::Text(self.image.clone())));
        r.push(("tag", FieldValue::Text(self.tag.clone())));
        r.push(("insecure", FieldValue::Flag(self.insecure)));
        r.push(("path", FieldValue::Text(self.path.clone())));
        r
    }
}

/// Splitting `r/rest` at its first `/` gives `r` and `rest` when `r` has no `/`.
proof fn lemma_split_first_slash(r: Seq<char>, rest: Seq<char>)
    requires
        !r.contains('/'),
    ensures
        find_first(r + seq!['/'] + rest, '/', 0) == r.len(),
        (r + seq!['/'] + rest).take(r.len() as int) == r,
        (r + seq!['/'] + rest).skip(r.len() as int + 1) == rest,
{
    let s = r + seq!['/'] + rest;
    assert forall|j: int| 0 <= j < r.len() implies s[j] != '/' by {
        assert(s[j] == r[j]);
    }
    lemma_find_first_at(s, '/', 0, r.len() as int);
    assert(s.take(r.len() as int) =~= r);
    assert(s.skip(r.len() as int + 1) =~= rest);
}

/// A name without `/` is left as it is by the registry split.
proof fn lemma_no_slash(s: Seq<char>)
    requires
        !s.contains('/'),
    ensures
        split_registry(s) == (None::<Seq<char>>, s),
{
    assert forall|j: int| 0 <= j < s.len() implies s[j] != '/' by {
        if s[j] == '/' {
            assert(s.contains('/'));
        }
    }
    crate::text::lemma_find_first_none(s, '/', 0);
}

/// Splitting `i:t` at its last `:` gives `i` and `t` when `t` has no `:`.
proof fn lemma_split_last_colon(i: Seq<char>, t: Seq<char>)
    requires
        !t.contains(':'),
    ensures
        split_tag(i + seq![':'] + t) == (i, Some(t)),
{
    let s = i + seq![':'] + t;
    assert forall|j: int| i.len() < j < s.len() implies s[j] != ':' by {
        assert(s[j] == t[j - i.len() - 1]);
    }
    crate::text::lemma_find_last_at(s, ':', s.len() as int, i.len() as int);
    assert(s.take(i.len() as int) =~= i);
    assert(s.skip(i.len() as int + 1) =~= t);
}

/// A name without `:` has no tag.
proof fn lemma_no_colon(name: Seq<char>)
    requires
        !name.contains(':'),
    ensures
        split_tag(name) == (name, None::<Seq<char>>),
{
    assert forall|j: int| 0 <= j < name.len() implies name[j] != ':' by {
        if name[j] == ':' {
            assert(name.contains(':'));
        }
    }
    crate::text::lemma_find_last_none(name, ':', name.len() as int);
}

/// The canonical form `registry/image:tag` parses back to exactly its three
/// parts, with no default applied, when the registry names a host without
/// `/` and the tag holds no `:`.
pub proof fn lemma_canonical_round_trip(registry: Seq<char>, image: Seq<char>, tag: Seq<char>)
    requires
        is_registry_host(registry),
        !registry.contains('/'),
        !tag.contains(':'),
    ensures
        parse_spec(registry + seq!['/'] + image + seq![':'] + tag) == (
            Some(registry),
            image,
            Some(tag),
        ),
{
    let rest = image + seq![':'] + tag;
    let s = registry + seq!['/'] + image + seq![':'] + tag;
    assert(s =~= registry + seq!['/'] + rest);
    lemma_split_first_slash(registry, rest);
    assert(split_registry(s) == (Some(registry), rest));
    lemma_split_last_colon(image, tag);
}

/// A bare name `foo` becomes `library/foo` on the default registry with the
/// default tag.
pub proof fn lemma_bare_name_defaults(name: Seq<char>)
    requires
        !name.contains('/'),
        !name.contains(':'),
    ensures
        resolved(name) == (default_registry(), namespace_prefix() + name, default_tag()),
{
    lemma_no_slash(name);
    lemma_no_colon(name);
}

/// `localhost/foo` names the registry `localhost` and the image `foo`, with
/// no namespace put before it.
pub proof fn lemma_localhost_is_registry(name: Seq<char>)
    requires
        !name.contains(':'),
    ensures
        resolved(localhost() + seq!['/'] + name) == (localhost(), name, default_tag()),
{
    assert(!localhost().contains('/')) by {
        if localhost().contains('/') {
            let j = choose|j: int| 0 <= j < localhost().len() && localhost()[j] == '/';
        }
    }
    lemma_split_first_slash(localhost(), name);
    lemma_no_colon(name);
}

/// `foo/bar`, where `foo` holds neither `.` nor `:` and is not `localhost`,
/// is the image `foo/bar` on the default registry.
pub proof fn lemma_plain_namespace(ns: Seq<char>, name: Seq<char>)
    requires
        !is_registry_host(ns),
        !ns.contains('/'),
        !name.contains(':'),
    ensures
        resolved(ns + seq!['/'] + name) == (default_registry(), ns + seq!['/'] + name, default_tag()),
{
    let s = ns + seq!['/'] + name;
    lemma_split_first_slash(ns, name);
    assert(split_registry(s) == (None::<Seq<char>>, s));
    assert forall|j: int| 0 <= j < s.len() implies s[j] != ':' by {
        if j < ns.len() {
            assert(s[j] == ns[j]);
            if ns[j] == ':' {
                assert(ns.contains(':'));
            }
        } else if j > ns.len() {
            assert(s[j] == name[j - ns.len() - 1]);
            if name[j - ns.len() - 1] == ':' {
                assert(name.contains(':'));
            }
        }
    }
    crate::text::lemma_find_last_none(s, ':', s.len() as int);
    assert(s[ns.len() as int] == '/');
}

/// Matching against the insecure list ignores the port: `host:port` is
/// insecure exactly when `host` is listed.
pub proof fn lemma_insecure_ignores_port(set: Set<String>, host: Seq<char>, port: Seq<char>)
    requires
        !host.contains(':'),
    ensures
        listed(set, host_part(host + seq![':'] + port)) == listed(set, host),
{
    let s = host + seq![':'] + port;
    assert forall|j: int| 0 <= j < host.len() implies s[j] != ':' by {
        assert(s[j] == host[j]);
        if host[j] == ':' {
            assert(host.contains(':'));
        }
    }
    lemma_find_first_at(s, ':', 0, host.len() as int);
    assert(s.take(host.len() as int) =~= host);
}

} // verus!
