//! Server configuration: built-in defaults, YAML overrides read through the
//! `config` crate, and command-line overrides.

use vstd::prelude::*;
use crate::error::AppError;
use crate::text::{push_char, push_str, str_eq, to_owned_string, views};

verus! {

/// Listening address.
#[derive(Clone, Debug, PartialEq, Eq)]
pub struct CofgAddrs {
    /// like 127.0.0.1
    pub ip: String,
    /// like 80, 8080
    pub port: u16,
}

#[derive(Clone, Debug, PartialEq, Eq)]
pub struct CofgTls {
    pub enable: bool,
    /// certificate file (PEM)
    pub cert: String,
    /// private key file (PEM)
    pub key: String,
}

#[derive(Clone, Debug, PartialEq, Eq)]
pub struct CofgLogger {
    pub enabling: bool,
    pub format: String,
}

/// One user of HTTP basic authentication.
#[derive(Clone, Debug, PartialEq, Eq)]
pub struct CofgUser {
    pub name: String,
    pub passwords: Option<String>,
    pub allow: Option<Vec<String>>,
    pub disallow: Option<Vec<String>>,
}

#[derive(Clone, Debug, PartialEq, Eq)]
pub struct CofgHttpAuth {
    pub enable: bool,
    pub users: Option<Vec<CofgUser>>,
}

#[derive(Clone, Debug, PartialEq, Eq)]
pub struct CofgIpFilter {
    pub enable: bool,
    pub allow: Option<Vec<String>>,
    pub block: Option<Vec<String>>,
}

#[derive(Clone, Debug, PartialEq, Eq)]
pub struct CofgRateLimiting {
    pub enable: bool,
    pub seconds_per_request: u64,
    pub burst_size: u32,
}

#[derive(Clone, Debug, PartialEq, Eq)]
pub struct CofgMiddleware {
    pub normalize_path: bool,
    pub compress: bool,
    pub logger: CofgLogger,
    pub http_base_authentication: CofgHttpAuth,
    pub ip_filter: CofgIpFilter,
    pub rate_limiting: CofgRateLimiting,
}

#[derive(Clone, Debug, PartialEq, Eq)]
pub struct CofgTemplating {
    /// extra `name:value` context directives
    pub value: Option<Vec<String>>,
    pub hot_reload: bool,
}

/// TOC settings: extensions listed and substrings that hide a path.
#[derive(Clone, Debug, PartialEq, Eq)]
pub struct CofgToc {
    pub ext: Vec<String>,
    pub ig: Vec<String>,
}

#[derive(Clone, Debug, PartialEq, Eq)]
pub struct CofgCache {
    pub enable_toc: bool,
    pub enable_html: bool,
    pub toc_capacity: usize,
    pub html_capacity: usize,
}

/// The whole configuration.
#[derive(Clone, Debug, PartialEq, Eq)]
pub struct Cofg {
    pub addrs: CofgAddrs,
    pub tls: CofgTls,
    pub middleware: CofgMiddleware,
    pub templating: CofgTemplating,
    pub toc: CofgToc,
    pub cache: CofgCache,
    /// content root
    pub public_path: String,
    /// page served for missing content
    pub not_found_page: String,
    /// outer page template
    pub page_template: String,
}

/// Marker in `toc.ext` / `toc.ig` that stands for the built-in list.
pub const BUILT_IN: &'static str = "<build-in>";

/// `s` holds `x` as one of its elements.
pub open spec fn holds(s: Seq<Seq<char>>, x: Seq<char>) -> bool {
    exists|i: int| 0 <= i < s.len() && s[i] == x
}

fn contains_string(v: &Vec<String>, x: &str) -> (r: bool)
    ensures
        r == holds(views(v@), x@),
{
    let mut i: usize = 0;
    while i < v.len()
        invariant
            i <= v@.len(),
            forall|j: int| 0 <= j < i ==> views(v@)[j] != x@,
        decreases v@.len() - i,
    {
        if str_eq(v[i].as_str(), x) {
            assert(views(v@)[i as int] == x@);
            return true;
        }
        i = i + 1;
    }
    false
}

/// `v` without the elements equal to `x`.
fn without(v: Vec<String>, x: &str) -> (r: Vec<String>)
    ensures
        views(r@).to_set() == views(v@).to_set().remove(x@),
{
    let mut out: Vec<String> = Vec::new();
    let mut i: usize = 0;
    while i < v.len()
        invariant
            i <= v@.len(),
            views(out@).to_set() == views(v@.subrange(0, i as int)).to_set().remove(x@),
        decreases v@.len() - i,
    {
        let ghost before = views(out@);
        let ghost pre = views(v@.subrange(0, i as int));
        assert(views(v@.subrange(0, i + 1)) =~= pre.push(v@[i as int]@));
        if !str_eq(v[i].as_str(), x) {
            out.push(v[i].clone());
            assert(views(out@) =~= before.push(v@[i as int]@));
            proof {
                vstd::seq_lib::seq_to_set_distributes_over_add(before, seq![v@[i as int]@]);
                vstd::seq_lib::seq_to_set_distributes_over_add(pre, seq![v@[i as int]@]);
                assert(before.push(v@[i as int]@) =~= before + seq![v@[i as int]@]);
                assert(pre.push(v@[i as int]@) =~= pre + seq![v@[i as int]@]);
            }
            assert(views(out@).to_set() =~= views(v@.subrange(0, i + 1)).to_set().remove(x@));
        } else {
            proof {
                vstd::seq_lib::seq_to_set_distributes_over_add(pre, seq![v@[i as int]@]);
                assert(pre.push(v@[i as int]@) =~= pre + seq![v@[i as int]@]);
            }
            assert(views(out@).to_set() =~= views(v@.subrange(0, i + 1)).to_set().remove(x@));
        }
        i = i + 1;
    }
    assert(v@.subrange(0, v@.len() as int) =~= v@);
    out
}

/// Appends `x` unless present.
fn add_unique(v: &mut Vec<String>, x: &str)
    ensures
        views(final(v)@).to_set() == views(old(v)@).to_set().insert(x@),
{
    if contains_string(v, x) {
        proof {
            let k = choose|k: int| 0 <= k < views(v@).len() && views(v@)[k] == x@;
            assert(views(v@).to_set().contains(x@));
        }
        assert(views(v@).to_set().insert(x@) =~= views(v@).to_set());
        return;
    }
    let ghost before = views(v@);
    v.push(to_owned_string(x));
    assert(views(v@) =~= before.push(x@));
    proof {
        vstd::seq_lib::seq_to_set_distributes_over_add(before, seq![x@]);
        assert(before.push(x@) =~= before + seq![x@]);
    }
    assert forall|y| views(v@).to_set().contains(y) <==> before.to_set().insert(x@).contains(y) by {
        if views(v@).to_set().contains(y) {
            let k = choose|k: int| 0 <= k < views(v@).len() && views(v@)[k] == y;
            if k < before.len() {
                assert(before[k] == y);
            }
        }
        if before.to_set().contains(y) {
            let k = choose|k: int| 0 <= k < before.len() && before[k] == y;
            assert(views(v@)[k] == y);
        }
        if y == x@ {
            assert(views(v@)[before.len() as int] == y);
        }
    }
    assert(views(v@).to_set() =~= before.to_set().insert(x@));
}

pub open spec fn default_exts() -> Set<Seq<char>> {
    set!["html"@, "md"@, "pdf"@, "txt"@, "png"@]
}

pub open spec fn default_ignores() -> Set<Seq<char>> {
    set!["node_modules"@]
}

/// A list with the built-in marker expanded: the marker replaced by the
/// built-in entries; a list without it stays as it is.
pub open spec fn expanded(s: Set<Seq<char>>, defaults: Set<Seq<char>>) -> Set<Seq<char>> {
    if s.contains(BUILT_IN@) {
        s.remove(BUILT_IN@).union(defaults)
    } else {
        s
    }
}

impl Cofg {
    /// Replaces the `<build-in>` marker in `toc.ext` by html, md, pdf, txt
    /// and png, and in `toc.ig` by node_modules.
    pub fn configure_default_extensions(self) -> (r: Cofg)
        ensures
            views(r.toc.ext@).to_set() == expanded(views(self.toc.ext@).to_set(), default_exts()),
            views(r.toc.ig@).to_set() == expanded(views(self.toc.ig@).to_set(), default_ignores()),
            r.addrs == self.addrs,
            r.tls == self.tls,
            r.middleware == self.middleware,
            r.templating == self.templating,
            r.cache == self.cache,
            r.public_path == self.public_path,
            r.not_found_page == self.not_found_page,
            r.page_template == self.page_template,
    {
        let mut s = self;
        proof {
            reveal_strlit("<build-in>");
        }
        if contains_string(&s.toc.ext, BUILT_IN) {
            let mut ext = without(s.toc.ext, BUILT_IN);
            let ghost base = views(ext@).to_set();
            add_unique(&mut ext, "html");
            add_unique(&mut ext, "md");
            add_unique(&mut ext, "pdf");
            add_unique(&mut ext, "txt");
            add_unique(&mut ext, "png");
            assert(views(ext@).to_set() =~= base.union(default_exts()));
            s.toc.ext = ext;
        }
        if contains_string(&s.toc.ig, BUILT_IN) {
            let mut ig = without(s.toc.ig, BUILT_IN);
            let ghost base = views(ig@).to_set();
            add_unique(&mut ig, "node_modules");
            assert(views(ig@).to_set() =~= base.union(default_ignores()));
            s.toc.ig = ig;
        }
        s
    }
}

} // verus!

verus! {

// ----- YAML settings, read through the `config` crate -----

/// Lookup of a string setting under a dotted key of a YAML text: `None` when
/// the lookup fails (the text does not parse, or the value does not read as
/// a string), `Some(None)` when the key is absent, else the value.
pub uninterp spec fn yaml_string(text: Seq<char>, key: Seq<char>) -> Option<Option<Seq<char>>>;

/// Lookup of a boolean setting, as for `yaml_string`.
pub uninterp spec fn yaml_bool(text: Seq<char>, key: Seq<char>) -> Option<Option<bool>>;

/// Lookup of an integer setting, as for `yaml_string`.
pub uninterp spec fn yaml_int(text: Seq<char>, key: Seq<char>) -> Option<Option<int>>;

/// Lookup of a list of strings, as for `yaml_string`; a null value reads as
/// absent.
pub uninterp spec fn yaml_strings(text: Seq<char>, key: Seq<char>) -> Option<Option<Seq<Seq<char>>>>;

/// Relies on `config::Config::builder` with a YAML `config::File::from_str`
/// source and `config::Config::get_string`: the string under the key, or
/// `None` for `ConfigError::NotFound`; any other failure is an error. The
/// outcome depends on the text and the key alone.
#[verifier::external_body]
fn yaml_get_string(text: &str, key: &str) -> (r: Result<Option<String>, AppError>)
    ensures
        match r {
            Ok(v) => yaml_string(text@, key@) == Some(match v {
                Some(s) => Some(s@),
                None => None::<Seq<char>>,
            }),
            Err(e) => yaml_string(text@, key@) is None && e is ConfigError,
        },
{
    let source = config::File::from_str(text, config::FileFormat::Yaml);
    match config::Config::builder().add_source(source).build().and_then(|c| c.get_string(key)) {
        Ok(v) => Ok(Some(v)),
        Err(config::ConfigError::NotFound(_)) => Ok(None),
        Err(e) => Err(AppError::ConfigError(e.to_string())),
    }
}

/// Relies on `config::Config::get_bool` as for `yaml_get_string`.
#[verifier::external_body]
fn yaml_get_bool(text: &str, key: &str) -> (r: Result<Option<bool>, AppError>)
    ensures
        match r {
            Ok(v) => yaml_bool(text@, key@) == Some(v),
            Err(e) => yaml_bool(text@, key@) is None && e is ConfigError,
        },
{
    let source = config::File::from_str(text, config::FileFormat::Yaml);
    match config::Config::builder().add_source(source).build().and_then(|c| c.get_bool(key)) {
        Ok(v) => Ok(Some(v)),
        Err(config::ConfigError::NotFound(_)) => Ok(None),
        Err(e) => Err(AppError::ConfigError(e.to_string())),
    }
}

/// Relies on `config::Config::get_int` as for `yaml_get_string`.
#[verifier::external_body]
fn yaml_get_int(text: &str, key: &str) -> (r: Result<Option<i64>, AppError>)
    ensures
        match r {
            Ok(v) => yaml_int(text@, key@) == Some(match v {
                Some(n) => Some(n as int),
                None => None::<int>,
            }),
            Err(e) => yaml_int(text@, key@) is None && e is ConfigError,
        },
{
    let source = config::File::from_str(text, config::FileFormat::Yaml);
    match config::Config::builder().add_source(source).build().and_then(|c| c.get_int(key)) {
        Ok(v) => Ok(Some(v)),
        Err(config::ConfigError::NotFound(_)) => Ok(None),
        Err(e) => Err(AppError::ConfigError(e.to_string())),
    }
}

/// Relies on `config::Config::get::<Option<Vec<String>>>` as for
/// `yaml_get_string`; a null value reads as `None`.
#[verifier::external_body]
fn yaml_get_strings(text: &str, key: &str) -> (r: Result<Option<Vec<String>>, AppError>)
    ensures
        match r {
            Ok(v) => yaml_strings(text@, key@) == Some(match v {
                Some(l) => Some(views(l@)),
                None => None::<Seq<Seq<char>>>,
            }),
            Err(e) => yaml_strings(text@, key@) is None && e is ConfigError,
        },
{
    let source = config::File::from_str(text, config::FileFormat::Yaml);
    match config::Config::builder().add_source(source).build().and_then(|c| c.get::<Option<Vec<String>>>(key)) {
        Ok(v) => Ok(v),
        Err(config::ConfigError::NotFound(_)) => Ok(None),
        Err(e) => Err(AppError::ConfigError(e.to_string())),
    }
}

pub open spec fn text_setting(text: Seq<char>, key: Seq<char>, d: Seq<char>) -> Seq<char> {
    match yaml_string(text, key) {
        Some(Some(s)) => s,
        _ => d,
    }
}

pub open spec fn flag_setting(text: Seq<char>, key: Seq<char>, d: bool) -> bool {
    match yaml_bool(text, key) {
        Some(Some(b)) => b,
        _ => d,
    }
}

pub open spec fn number_setting(text: Seq<char>, key: Seq<char>, d: int) -> int {
    match yaml_int(text, key) {
        Some(Some(n)) => n,
        _ => d,
    }
}

pub open spec fn list_setting(text: Seq<char>, key: Seq<char>, d: Option<Seq<Seq<char>>>) -> Option<Seq<Seq<char>>> {
    match yaml_strings(text, key) {
        Some(Some(l)) => Some(l),
        _ => d,
    }
}

/// An integer setting reads, and is absent or within `0..=max`.
pub open spec fn number_ok(text: Seq<char>, key: Seq<char>, max: int) -> bool {
    match yaml_int(text, key) {
        Some(Some(n)) => 0 <= n <= max,
        Some(None) => true,
        None => false,
    }
}

fn load_string(text: &str, key: &str, d: &str) -> (r: Result<String, AppError>)
    ensures
        r is Ok <==> yaml_string(text@, key@) is Some,
        r matches Ok(v) ==> v@ == text_setting(text@, key@, d@),
        r matches Err(e) ==> e is ConfigError,
{
    match yaml_get_string(text, key)? {
        Some(v) => Ok(v),
        None => Ok(to_owned_string(d)),
    }
}

fn load_flag(text: &str, key: &str, d: bool) -> (r: Result<bool, AppError>)
    ensures
        r is Ok <==> yaml_bool(text@, key@) is Some,
        r matches Ok(v) ==> v == flag_setting(text@, key@, d),
        r matches Err(e) ==> e is ConfigError,
{
    match yaml_get_bool(text, key)? {
        Some(v) => Ok(v),
        None => Ok(d),
    }
}

/// A whole number up to `max`; a negative or larger value is an error.
fn load_number(text: &str, key: &str, d: u64, max: u64) -> (r: Result<u64, AppError>)
    requires
        d <= max,
    ensures
        r is Ok <==> number_ok(text@, key@, max as int),
        r matches Ok(v) ==> v as int == number_setting(text@, key@, d as int) && v <= max,
        r matches Err(e) ==> e is ConfigError,
{
    match yaml_get_int(text, key)? {
        Some(v) => {
            if v < 0 || v as u64 > max {
                Err(AppError::ConfigError(to_owned_string("number out of range")))
            } else {
                Ok(v as u64)
            }
        },
        None => Ok(d),
    }
}

fn load_list(text: &str, key: &str, d: Option<Vec<String>>) -> (r: Result<Option<Vec<String>>, AppError>)
    ensures
        r is Ok <==> yaml_strings(text@, key@) is Some,
        r matches Ok(v) ==> opt_list_view(v) == list_setting(text@, key@, opt_list_view(d)),
        r matches Err(e) ==> e is ConfigError,
{
    match yaml_get_strings(text, key)? {
        Some(v) => Ok(Some(v)),
        None => Ok(d),
    }
}

pub open spec fn opt_list_view(v: Option<Vec<String>>) -> Option<Seq<Seq<char>>> {
    match v {
        Some(l) => Some(views(l@)),
        None => None,
    }
}

fn one(s: &str) -> (r: Vec<String>)
    ensures
        views(r@) == seq![s@],
{
    let mut v: Vec<String> = Vec::new();
    v.push(to_owned_string(s));
    assert(views(v@) =~= seq![s@]);
    v
}

pub open spec fn string_keys() -> Seq<Seq<char>> {
    seq![
        "addrs.ip"@,
        "tls.cert"@,
        "tls.key"@,
        "middleware.logger.format"@,
        "public_path"@,
        "not_found_page"@,
        "page_template"@,
    ]
}

pub open spec fn flag_keys() -> Seq<Seq<char>> {
    seq![
        "tls.enable"@,
        "middleware.normalize_path"@,
        "middleware.compress"@,
        "middleware.logger.enabling"@,
        "middleware.http_base_authentication.enable"@,
        "middleware.ip_filter.enable"@,
        "middleware.rate_limiting.enable"@,
        "templating.hot_reload"@,
        "cache.enable_toc"@,
        "cache.enable_html"@,
    ]
}

pub open spec fn list_keys() -> Seq<Seq<char>> {
    seq![
        "toc.ext"@,
        "toc.ig"@,
        "middleware.ip_filter.allow"@,
        "middleware.ip_filter.block"@,
        "templating.value"@,
    ]
}

pub open spec fn number_keys() -> Seq<Seq<char>> {
    seq![
        "addrs.port"@,
        "middleware.rate_limiting.seconds_per_request"@,
        "middleware.rate_limiting.burst_size"@,
        "cache.toc_capacity"@,
        "cache.html_capacity"@,
    ]
}

/// Every lookup of the configuration's keys in `t` succeeds and every number
/// is in range: exactly when [`Cofg::new_from_str`] succeeds.
pub open spec fn loads(t: Seq<char>) -> bool {
    &&& forall|i: int| 0 <= i < string_keys().len() ==> #[trigger] yaml_string(t, string_keys()[i]) is Some
    &&& forall|i: int| 0 <= i < flag_keys().len() ==> #[trigger] yaml_bool(t, flag_keys()[i]) is Some
    &&& forall|i: int| 0 <= i < list_keys().len() ==> #[trigger] yaml_strings(t, list_keys()[i]) is Some
    &&& number_ok(t, "addrs.port"@, 65535)
    &&& number_ok(t, "middleware.rate_limiting.seconds_per_request"@, 18446744073709551615)
    &&& number_ok(t, "middleware.rate_limiting.burst_size"@, 4294967295)
    &&& number_ok(t, "cache.toc_capacity"@, 4294967295)
    &&& number_ok(t, "cache.html_capacity"@, 4294967295)
}

/// No key of the configuration is present in `t`, and every lookup succeeds.
pub open spec fn all_absent(t: Seq<char>) -> bool {
    &&& forall|i: int| 0 <= i < string_keys().len() ==> #[trigger] yaml_string(t, string_keys()[i]) == Some(None::<Seq<char>>)
    &&& forall|i: int| 0 <= i < flag_keys().len() ==> #[trigger] yaml_bool(t, flag_keys()[i]) == Some(None::<bool>)
    &&& forall|i: int| 0 <= i < list_keys().len() ==> #[trigger] yaml_strings(t, list_keys()[i]) == Some(None::<Seq<Seq<char>>>)
    &&& forall|i: int| 0 <= i < number_keys().len() ==> #[trigger] yaml_int(t, number_keys()[i]) == Some(None::<int>)
}

/// Every setting of `c` is the YAML text's value under its key, or the
/// built-in default where the key is absent; `toc.ext` and `toc.ig` are then
/// expanded.
pub open spec fn loaded(c: Cofg, t: Seq<char>) -> bool {
    &&& c.addrs.ip@ == text_setting(t, "addrs.ip"@, "127.0.0.1"@)
    &&& c.addrs.port as int == number_setting(t, "addrs.port"@, 8080)
    &&& c.tls.enable == flag_setting(t, "tls.enable"@, false)
    &&& c.tls.cert@ == text_setting(t, "tls.cert"@, "./cert.pem"@)
    &&& c.tls.key@ == text_setting(t, "tls.key"@, "./key.pem"@)
    &&& c.middleware.normalize_path == flag_setting(t, "middleware.normalize_path"@, true)
    &&& c.middleware.compress == flag_setting(t, "middleware.compress"@, true)
    &&& c.middleware.logger.enabling == flag_setting(t, "middleware.logger.enabling"@, true)
    &&& c.middleware.logger.format@ == text_setting(t, "middleware.logger.format"@, "%{url}xi %s %T"@)
    &&& c.middleware.http_base_authentication.enable == flag_setting(
        t,
        "middleware.http_base_authentication.enable"@,
        false,
    )
    &&& c.middleware.http_base_authentication.users is None
    &&& c.middleware.ip_filter.enable == flag_setting(t, "middleware.ip_filter.enable"@, false)
    &&& opt_list_view(c.middleware.ip_filter.allow) == list_setting(t, "middleware.ip_filter.allow"@, None)
    &&& opt_list_view(c.middleware.ip_filter.block) == list_setting(t, "middleware.ip_filter.block"@, None)
    &&& c.middleware.rate_limiting.enable == flag_setting(t, "middleware.rate_limiting.enable"@, false)
    &&& c.middleware.rate_limiting.seconds_per_request as int == number_setting(
        t,
        "middleware.rate_limiting.seconds_per_request"@,
        1,
    )
    &&& c.middleware.rate_limiting.burst_size as int == number_setting(
        t,
        "middleware.rate_limiting.burst_size"@,
        50,
    )
    &&& opt_list_view(c.templating.value) == list_setting(t, "templating.value"@, None)
    &&& c.templating.hot_reload == flag_setting(t, "templating.hot_reload"@, false)
    &&& views(c.toc.ext@).to_set() == expanded(
        list_setting(t, "toc.ext"@, Some(seq![BUILT_IN@])).unwrap().to_set(),
        default_exts(),
    )
    &&& views(c.toc.ig@).to_set() == expanded(
        list_setting(t, "toc.ig"@, Some(seq![BUILT_IN@])).unwrap().to_set(),
        default_ignores(),
    )
    &&& c.cache.enable_toc == flag_setting(t, "cache.enable_toc"@, true)
    &&& c.cache.enable_html == flag_setting(t, "cache.enable_html"@, true)
    &&& c.cache.toc_capacity as int == number_setting(t, "cache.toc_capacity"@, 64)
    &&& c.cache.html_capacity as int == number_setting(t, "cache.html_capacity"@, 256)
    &&& c.public_path@ == text_setting(t, "public_path"@, "./public/"@)
    &&& c.not_found_page@ == text_setting(t, "not_found_page"@, "./meta/404.html"@)
    &&& c.page_template@ == text_setting(t, "page_template"@, "./meta/html-t.hbs"@)
}

impl Cofg {
    /// Configuration from a YAML text layered over the built-in defaults: a
    /// key that is present replaces the default, an absent one keeps it.
    /// A text that does not parse, or a value of the wrong type or out of
    /// range, is a `ConfigError`.
    pub fn new_from_str(text: &str) -> (r: Result<Cofg, AppError>)
        ensures
            r is Ok <==> loads(text@),
            r matches Ok(c) ==> loaded(c, text@),
            r matches Err(e) ==> e is ConfigError,
    {
        proof {
            assert(string_keys()[0] == "addrs.ip"@ && string_keys()[1] == "tls.cert"@);
            assert(string_keys()[2] == "tls.key"@ && string_keys()[3] == "middleware.logger.format"@);
            assert(string_keys()[4] == "public_path"@ && string_keys()[5] == "not_found_page"@);
            assert(string_keys()[6] == "page_template"@);
            assert(flag_keys()[0] == "tls.enable"@ && flag_keys()[1] == "middleware.normalize_path"@);
            assert(flag_keys()[2] == "middleware.compress"@ && flag_keys()[3] == "middleware.logger.enabling"@);
            assert(flag_keys()[4] == "middleware.http_base_authentication.enable"@);
            assert(flag_keys()[5] == "middleware.ip_filter.enable"@ && flag_keys()[6] == "middleware.rate_limiting.enable"@);
            assert(flag_keys()[7] == "templating.hot_reload"@ && flag_keys()[8] == "cache.enable_toc"@);
            assert(flag_keys()[9] == "cache.enable_html"@);
            assert(list_keys()[0] == "toc.ext"@ && list_keys()[1] == "toc.ig"@);
            assert(list_keys()[2] == "middleware.ip_filter.allow"@ && list_keys()[3] == "middleware.ip_filter.block"@);
            assert(list_keys()[4] == "templating.value"@);
        }
        let ext = load_list(text, "toc.ext", Some(one(BUILT_IN)))?;
        let ig = load_list(text, "toc.ig", Some(one(BUILT_IN)))?;
        let c = Cofg {
            addrs: CofgAddrs {
                ip: load_string(text, "addrs.ip", "127.0.0.1")?,
                port: load_number(text, "addrs.port", 8080, 65535)? as u16,
            },
            tls: CofgTls {
                enable: load_flag(text, "tls.enable", false)?,
                cert: load_string(text, "tls.cert", "./cert.pem")?,
                key: load_string(text, "tls.key", "./key.pem")?,
            },
            middleware: CofgMiddleware {
                normalize_path: load_flag(text, "middleware.normalize_path", true)?,
                compress: load_flag(text, "middleware.compress", true)?,
                logger: CofgLogger {
                    enabling: load_flag(text, "middleware.logger.enabling", true)?,
                    format: load_string(text, "middleware.logger.format", "%{url}xi %s %T")?,
                },
                http_base_authentication: CofgHttpAuth {
                    enable: load_flag(text, "middleware.http_base_authentication.enable", false)?,
                    users: None,
                },
                ip_filter: CofgIpFilter {
                    enable: load_flag(text, "middleware.ip_filter.enable", false)?,
                    allow: load_list(text, "middleware.ip_filter.allow", None)?,
                    block: load_list(text, "middleware.ip_filter.block", None)?,
                },
                rate_limiting: CofgRateLimiting {
                    enable: load_flag(text, "middleware.rate_limiting.enable", false)?,
                    seconds_per_request: load_number(text, "middleware.rate_limiting.seconds_per_request", 1, 18446744073709551615)?,
                    burst_size: load_number(text, "middleware.rate_limiting.burst_size", 50, 4294967295)? as u32,
                },
            },
            templating: CofgTemplating {
                value: load_list(text, "templating.value", None)?,
                hot_reload: load_flag(text, "templating.hot_reload", false)?,
            },
            toc: CofgToc {
                ext: match ext {
                    Some(v) => v,
                    None => Vec::new(),
                },
                ig: match ig {
                    Some(v) => v,
                    None => Vec::new(),
                },
            },
            cache: CofgCache {
                enable_toc: load_flag(text, "cache.enable_toc", true)?,
                enable_html: load_flag(text, "cache.enable_html", true)?,
                toc_capacity: load_number(text, "cache.toc_capacity", 64, 4294967295)? as usize,
                html_capacity: load_number(text, "cache.html_capacity", 256, 4294967295)? as usize,
            },
            public_path: load_string(text, "public_path", "./public/")?,
            not_found_page: load_string(text, "not_found_page", "./meta/404.html")?,
            page_template: load_string(text, "page_template", "./meta/html-t.hbs")?,
        };
        Ok(c.configure_default_extensions())
    }
}

} // verus!

verus! {

/// The built-in configuration, before the `<build-in>` markers are expanded.
pub open spec fn is_builtin(c: Cofg) -> bool {
    &&& c.addrs.ip@ == "127.0.0.1"@
    &&& c.addrs.port == 8080
    &&& !c.tls.enable
    &&& c.tls.cert@ == "./cert.pem"@
    &&& c.tls.key@ == "./key.pem"@
    &&& c.middleware.normalize_path
    &&& c.middleware.compress
    &&& c.middleware.logger.enabling
    &&& c.middleware.logger.format@ == "%{url}xi %s %T"@
    &&& !c.middleware.http_base_authentication.enable
    &&& c.middleware.http_base_authentication.users is None
    &&& !c.middleware.ip_filter.enable
    &&& c.middleware.ip_filter.allow is None
    &&& c.middleware.ip_filter.block is None
    &&& !c.middleware.rate_limiting.enable
    &&& c.middleware.rate_limiting.seconds_per_request == 1
    &&& c.middleware.rate_limiting.burst_size == 50
    &&& c.templating.value is None
    &&& !c.templating.hot_reload
    &&& c.cache.enable_toc
    &&& c.cache.enable_html
    &&& c.cache.toc_capacity == 64
    &&& c.cache.html_capacity == 256
    &&& c.public_path@ == "./public/"@
    &&& c.not_found_page@ == "./meta/404.html"@
    &&& c.page_template@ == "./meta/html-t.hbs"@
}

impl Default for Cofg {
    /// The built-in configuration, TOC lists expanded.
    fn default() -> (r: Cofg)
        ensures
            is_builtin(r),
            views(r.toc.ext@).to_set() == default_exts(),
            views(r.toc.ig@).to_set() == default_ignores(),
    {
        let c = Cofg {
            addrs: CofgAddrs { ip: to_owned_string("127.0.0.1"), port: 8080 },
            tls: CofgTls {
                enable: false,
                cert: to_owned_string("./cert.pem"),
                key: to_owned_string("./key.pem"),
            },
            middleware: CofgMiddleware {
                normalize_path: true,
                compress: true,
                logger: CofgLogger { enabling: true, format: to_owned_string("%{url}xi %s %T") },
                http_base_authentication: CofgHttpAuth { enable: false, users: None },
                ip_filter: CofgIpFilter { enable: false, allow: None, block: None },
                rate_limiting: CofgRateLimiting { enable: false, seconds_per_request: 1, burst_size: 50 },
            },
            templating: CofgTemplating { value: None, hot_reload: false },
            toc: CofgToc { ext: one(BUILT_IN), ig: one(BUILT_IN) },
            cache: CofgCache { enable_toc: true, enable_html: true, toc_capacity: 64, html_capacity: 256 },
            public_path: to_owned_string("./public/"),
            not_found_page: to_owned_string("./meta/404.html"),
            page_template: to_owned_string("./meta/html-t.hbs"),
        };
        proof {
            assert(seq![BUILT_IN@].to_set() =~= set![BUILT_IN@]) by {
                assert(seq![BUILT_IN@][0] == BUILT_IN@);
            }
            reveal_strlit("<build-in>");
            reveal_strlit("html");
            reveal_strlit("md");
            reveal_strlit("pdf");
            reveal_strlit("txt");
            reveal_strlit("png");
            reveal_strlit("node_modules");
            assert(BUILT_IN@ == "<build-in>"@);
            assert("<build-in>"@.len() == 10);
            assert(!default_exts().contains(BUILT_IN@)) by {
                assert("html"@.len() == 4 && "md"@.len() == 2 && "pdf"@.len() == 3);
                assert("txt"@.len() == 3 && "png"@.len() == 3);
            }
            assert(!default_ignores().contains(BUILT_IN@)) by {
                assert("node_modules"@.len() == 12);
            }
            assert(set![BUILT_IN@].remove(BUILT_IN@).union(default_exts()) =~= default_exts());
            assert(set![BUILT_IN@].remove(BUILT_IN@).union(default_ignores()) =~= default_ignores());
        }
        c.configure_default_extensions()
    }
}

/// Decimal digits of `n`.
pub open spec fn decimal(n: nat) -> Seq<char>
    decreases n,
{
    if n < 10 {
        seq![digit_char(n)]
    } else {
        decimal(n / 10).push(digit_char(n % 10))
    }
}

pub open spec fn digit_char(d: nat) -> char {
    seq!['0', '1', '2', '3', '4', '5', '6', '7', '8', '9'][d as int]
}

fn push_decimal(out: &mut String, n: u64)
    ensures
        final(out)@ == old(out)@ + decimal(n as nat),
    decreases n,
{
    if n >= 10 {
        push_decimal(out, n / 10);
    }
    let d = n % 10;
    let c: char = if d == 0 {
        '0'
    } else if d == 1 {
        '1'
    } else if d == 2 {
        '2'
    } else if d == 3 {
        '3'
    } else if d == 4 {
        '4'
    } else if d == 5 {
        '5'
    } else if d == 6 {
        '6'
    } else if d == 7 {
        '7'
    } else if d == 8 {
        '8'
    } else {
        '9'
    };
    assert(c == digit_char((n % 10) as nat));
    push_char(out, c);
}

impl CofgAddrs {
    /// `ip:port`.
    pub fn to_string(&self) -> (r: String)
        ensures
            r@ == self.ip@.push(':') + decimal(self.port as nat),
    {
        let mut out = to_owned_string(self.ip.as_str());
        push_char(&mut out, ':');
        push_decimal(&mut out, self.port as u64);
        out
    }
}

/// Command-line overrides.
#[derive(Clone, Debug, PartialEq, Eq)]
pub struct Args {
    pub ip: Option<String>,
    pub port: Option<u16>,
    pub tls_cert: Option<String>,
    pub tls_key: Option<String>,
}

impl CofgAddrs {
    /// The address given on the command line; both parts are needed.
    pub fn from_args(val: &Args) -> (r: Result<CofgAddrs, AppError>)
    ensures
        match (val.ip, val.port) {
            (Some(ip), Some(port)) => r matches Ok(a) && a.ip@ == ip@ && a.port == port,
            _ => r matches Err(AppError::OtherError(m)) && m@ == "ip or port is none"@,
        },
{
    match (&val.ip, val.port) {
        (Some(ip), Some(port)) => Ok(CofgAddrs { ip: ip.clone(), port }),
        _ => Err(AppError::OtherError(to_owned_string("ip or port is none"))),
    }
    }
}

impl TryFrom<&Args> for CofgAddrs {
    type Error = AppError;

    /// The address given on the command line; both parts are needed.
    fn try_from(val: &Args) -> (r: Result<CofgAddrs, AppError>)
        ensures
            match (val.ip, val.port) {
                (Some(ip), Some(port)) => r matches Ok(a) && a.ip@ == ip@ && a.port == port,
                _ => r matches Err(AppError::OtherError(m)) && m@ == "ip or port is none"@,
            },
    {
        CofgAddrs::from_args(val)
    }
}

impl vstd::std_specs::convert::TryFromSpecImpl<&Args> for CofgAddrs {
    /// The error's text is known by its characters only, so no single
    /// value can stand for the result; `try_from` states it instead.
    open spec fn obeys_try_from_spec() -> bool {
        false
    }

    open spec fn try_from_spec(v: &Args) -> Result<CofgAddrs, AppError> {
        arbitrary()
    }
}

impl vstd::std_specs::convert::TryFromSpecImpl<Args> for CofgAddrs {
    /// The error's text is known by its characters only, so no single
    /// value can stand for the result; `try_from` states it instead.
    open spec fn obeys_try_from_spec() -> bool {
        false
    }

    open spec fn try_from_spec(v: Args) -> Result<CofgAddrs, AppError> {
        arbitrary()
    }
}

impl TryFrom<Args> for CofgAddrs {
    type Error = AppError;

    /// The address given on the command line; both parts are needed.
    fn try_from(val: Args) -> (r: Result<CofgAddrs, AppError>)
        ensures
            match (val.ip, val.port) {
                (Some(ip), Some(port)) => r matches Ok(a) && a.ip@ == ip@ && a.port == port,
                _ => r matches Err(AppError::OtherError(m)) && m@ == "ip or port is none"@,
            },
    {
        CofgAddrs::from_args(&val)
    }
}

/// Command-line values over the loaded configuration: a zero rate-limit
/// burst or interval becomes one; a given ip and port replace the address;
/// a certificate and key given together switch TLS on.
pub fn build_config_from_cli(s: Cofg, cli: &Args) -> (r: Cofg)
    ensures
        r.middleware.rate_limiting.burst_size == if s.middleware.rate_limiting.burst_size == 0 {
            1
        } else {
            s.middleware.rate_limiting.burst_size
        },
        r.middleware.rate_limiting.seconds_per_request == if s.middleware.rate_limiting.seconds_per_request == 0 {
            1
        } else {
            s.middleware.rate_limiting.seconds_per_request
        },
        r.middleware.rate_limiting.enable == s.middleware.rate_limiting.enable,
        r.addrs.ip@ == match cli.ip {
            Some(ip) => ip@,
            None => s.addrs.ip@,
        },
        r.addrs.port == match cli.port {
            Some(p) => p,
            None => s.addrs.port,
        },
        match (cli.tls_cert, cli.tls_key) {
            (Some(c), Some(k)) => r.tls.enable && r.tls.cert@ == c@ && r.tls.key@ == k@,
            _ => r.tls == s.tls,
        },
        r.templating == s.templating,
        r.toc == s.toc,
        r.cache == s.cache,
        r.public_path == s.public_path,
        r.not_found_page == s.not_found_page,
        r.page_template == s.page_template,
{
    let mut s = s;
    if s.middleware.rate_limiting.burst_size == 0 {
        s.middleware.rate_limiting.burst_size = 1;
    }
    if s.middleware.rate_limiting.seconds_per_request == 0 {
        s.middleware.rate_limiting.seconds_per_request = 1;
    }
    match &cli.ip {
        Some(ip) => s.addrs.ip = ip.clone(),
        None => {},
    }
    match cli.port {
        Some(port) => s.addrs.port = port,
        None => {},
    }
    match (&cli.tls_cert, &cli.tls_key) {
        (Some(cert), Some(key)) => {
            s.tls.cert = cert.clone();
            s.tls.key = key.clone();
            s.tls.enable = true;
        },
        _ => {},
    }
    s
}

/// Build information reported by the server.
#[derive(Clone, Debug, PartialEq, Eq)]
pub struct Version {
    pub version: String,
    pub profile: String,
    pub commit_hash: String,
}

impl Version {
    pub fn new() -> (r: Version)
        ensures
            r.version@ == crate::render::SERVER_VERSION@,
            r.profile@ == "release"@,
            r.commit_hash@ == "unknown"@,
    {
        Version {
            version: to_owned_string(crate::render::SERVER_VERSION),
            profile: to_owned_string("release"),
            commit_hash: to_owned_string("unknown"),
        }
    }

    /// `Version: <v>, Profile: <p>, Commit: <c>`.
    pub fn to_string(&self) -> (r: String)
        ensures
            r@ == "Version: "@ + self.version@ + ", Profile: "@ + self.profile@ + ", Commit: "@ + self.commit_hash@,
    {
        let mut out = to_owned_string("Version: ");
        push_str(&mut out, self.version.as_str());
        push_str(&mut out, ", Profile: ");
        push_str(&mut out, self.profile.as_str());
        push_str(&mut out, ", Commit: ");
        push_str(&mut out, self.commit_hash.as_str());
        out
    }
}

impl Default for Version {
    fn default() -> (r: Version)
        ensures
            r.version@ == crate::render::SERVER_VERSION@,
            r.profile@ == "release"@,
            r.commit_hash@ == "unknown"@,
    {
        Version::new()
    }
}

} // verus!

verus! {

/// A configuration text that sets none of the keys loads, and gives the
/// built-in configuration with the TOC lists expanded, as [`Cofg::default`]
/// does.
pub proof fn lemma_absent_keys_give_defaults(c: Cofg, t: Seq<char>)
    requires
        all_absent(t),
    ensures
        loads(t),
        loaded(c, t) ==> is_builtin(c) && views(c.toc.ext@).to_set() == default_exts() && views(
            c.toc.ig@,
        ).to_set() == default_ignores(),
{
    assert(yaml_int(t, number_keys()[0]) == Some(None::<int>));
    assert(yaml_int(t, number_keys()[1]) == Some(None::<int>));
    assert(yaml_int(t, number_keys()[2]) == Some(None::<int>));
    assert(yaml_int(t, number_keys()[3]) == Some(None::<int>));
    assert(yaml_int(t, number_keys()[4]) == Some(None::<int>));
    assert forall|i: int| 0 <= i < string_keys().len() implies #[trigger] yaml_string(t, string_keys()[i]) is Some by {
        assert(yaml_string(t, string_keys()[i]) == Some(None::<Seq<char>>));
    }
    assert forall|i: int| 0 <= i < flag_keys().len() implies #[trigger] yaml_bool(t, flag_keys()[i]) is Some by {
        assert(yaml_bool(t, flag_keys()[i]) == Some(None::<bool>));
    }
    assert forall|i: int| 0 <= i < list_keys().len() implies #[trigger] yaml_strings(t, list_keys()[i]) is Some by {
        assert(yaml_strings(t, list_keys()[i]) == Some(None::<Seq<Seq<char>>>));
    }
    assert(yaml_string(t, string_keys()[0]) == Some(None::<Seq<char>>));
    assert(yaml_string(t, string_keys()[1]) == Some(None::<Seq<char>>));
    assert(yaml_string(t, string_keys()[2]) == Some(None::<Seq<char>>));
    assert(yaml_string(t, string_keys()[3]) == Some(None::<Seq<char>>));
    assert(yaml_string(t, string_keys()[4]) == Some(None::<Seq<char>>));
    assert(yaml_string(t, string_keys()[5]) == Some(None::<Seq<char>>));
    assert(yaml_string(t, string_keys()[6]) == Some(None::<Seq<char>>));
    assert(yaml_bool(t, flag_keys()[0]) == Some(None::<bool>));
    assert(yaml_bool(t, flag_keys()[1]) == Some(None::<bool>));
    assert(yaml_bool(t, flag_keys()[2]) == Some(None::<bool>));
    assert(yaml_bool(t, flag_keys()[3]) == Some(None::<bool>));
    assert(yaml_bool(t, flag_keys()[4]) == Some(None::<bool>));
    assert(yaml_bool(t, flag_keys()[5]) == Some(None::<bool>));
    assert(yaml_bool(t, flag_keys()[6]) == Some(None::<bool>));
    assert(yaml_bool(t, flag_keys()[7]) == Some(None::<bool>));
    assert(yaml_bool(t, flag_keys()[8]) == Some(None::<bool>));
    assert(yaml_bool(t, flag_keys()[9]) == Some(None::<bool>));
    assert(yaml_strings(t, list_keys()[0]) == Some(None::<Seq<Seq<char>>>));
    assert(yaml_strings(t, list_keys()[1]) == Some(None::<Seq<Seq<char>>>));
    assert(yaml_strings(t, list_keys()[2]) == Some(None::<Seq<Seq<char>>>));
    assert(yaml_strings(t, list_keys()[3]) == Some(None::<Seq<Seq<char>>>));
    assert(yaml_strings(t, list_keys()[4]) == Some(None::<Seq<Seq<char>>>));
    reveal_strlit("<build-in>");
    reveal_strlit("html");
    reveal_strlit("md");
    reveal_strlit("pdf");
    reveal_strlit("txt");
    reveal_strlit("png");
    reveal_strlit("node_modules");
    assert(seq![BUILT_IN@].to_set() =~= set![BUILT_IN@]) by {
        assert(seq![BUILT_IN@][0] == BUILT_IN@);
    }
    assert(BUILT_IN@ == "<build-in>"@);
    assert(!default_exts().contains(BUILT_IN@)) by {
        assert("<build-in>"@.len() == 10);
        assert("html"@.len() == 4 && "md"@.len() == 2 && "pdf"@.len() == 3);
        assert("txt"@.len() == 3 && "png"@.len() == 3);
    }
    assert(!default_ignores().contains(BUILT_IN@)) by {
        assert("node_modules"@.len() == 12);
    }
    assert(set![BUILT_IN@].remove(BUILT_IN@).union(default_exts()) =~= default_exts());
    assert(set![BUILT_IN@].remove(BUILT_IN@).union(default_ignores()) =~= default_ignores());
}

} // verus!
