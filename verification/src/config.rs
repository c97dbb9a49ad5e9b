//! Options of the transform, their validation, and the names of the
//! functions and components whose message descriptors are rewritten.

use vstd::prelude::*;
use crate::hash::{
    base64_id_pattern, decimal_value, digest_cut, first_unsupported_token, hash_token_at,
    interpolated, lemma_base64_id, lemma_base64_id_token, token_length, validate_pattern,
    PatternError, PatternFault,
};
use crate::digest::{base64_alphabet, base64_encoded, lemma_base64_len, sha512_of};
use vstd::utf8::encode_utf8;
use crate::text::{chars_of, string_from_chars};

verus! {

/// The id pattern used when the options name none.
pub const DEFAULT_ID_INTERPOLATION_PATTERN: &'static str = "[sha512:contenthash:base64:6]";

/// The characters of [`DEFAULT_ID_INTERPOLATION_PATTERN`].
pub open spec fn default_pattern() -> Seq<char> {
    seq![
        '[', 's', 'h', 'a', '5', '1', '2', ':', 'c', 'o', 'n', 't', 'e', 'n', 't', 'h', 'a',
        's', 'h', ':', 'b', 'a', 's', 'e', '6', '4', ':', '6', ']',
    ]
}

/// Options of the transform.
#[derive(Clone, Debug)]
pub struct Config {
    pub id_interpolation_pattern: Option<String>,
    pub remove_default_message: bool,
    pub additional_component_names: Vec<String>,
    pub additional_function_names: Vec<String>,
    pub pragma: Option<String>,
    pub extract_source_location: bool,
    pub ast: bool,
    pub preserve_whitespace: bool,
    /// Whether the options name `overrideIdFn` (a JavaScript callback).
    pub override_id_fn: bool,
    /// Whether the options name `onMsgExtracted` (a JavaScript callback).
    pub on_msg_extracted: bool,
    /// Whether the options name `onMetaExtracted` (a JavaScript callback).
    pub on_meta_extracted: bool,
}

impl Default for Config {
    fn default() -> (r: Config)
        ensures
            r.id_interpolation_pattern is None,
            !r.remove_default_message,
            r.additional_component_names@.len() == 0,
            r.additional_function_names@.len() == 0,
            r.pragma is None,
            !r.extract_source_location,
            !r.ast,
            !r.preserve_whitespace,
            !r.override_id_fn,
            !r.on_msg_extracted,
            !r.on_meta_extracted,
    {
        Config {
            id_interpolation_pattern: None,
            remove_default_message: false,
            additional_component_names: Vec::new(),
            additional_function_names: Vec::new(),
            pragma: None,
            extract_source_location: false,
            ast: false,
            preserve_whitespace: false,
            override_id_fn: false,
            on_msg_extracted: false,
            on_meta_extracted: false,
        }
    }
}

/// Why options are refused, by view.
pub enum ConfigFault {
    Ast,
    ExtractSourceLocation,
    Pragma(Seq<char>),
    OverrideIdFn,
    OnMsgExtracted,
    OnMetaExtracted,
    Pattern(PatternFault),
}

/// Why options are refused: `ast: true`, `extractSourceLocation: true`, a
/// non-empty `pragma` and the callbacks `overrideIdFn`, `onMsgExtracted` and
/// `onMetaExtracted` are not implemented, and the id pattern may hold hash
/// tokens only.
#[derive(Debug, Clone, PartialEq, Eq)]
pub enum ConfigError {
    Ast,
    ExtractSourceLocation,
    Pragma(String),
    OverrideIdFn,
    OnMsgExtracted,
    OnMetaExtracted,
    Pattern(PatternError),
}

impl View for ConfigError {
    type V = ConfigFault;

    open spec fn view(&self) -> ConfigFault {
        match self {
            ConfigError::Ast => ConfigFault::Ast,
            ConfigError::ExtractSourceLocation => ConfigFault::ExtractSourceLocation,
            ConfigError::Pragma(p) => ConfigFault::Pragma(p@),
            ConfigError::OverrideIdFn => ConfigFault::OverrideIdFn,
            ConfigError::OnMsgExtracted => ConfigFault::OnMsgExtracted,
            ConfigError::OnMetaExtracted => ConfigFault::OnMetaExtracted,
            ConfigError::Pattern(e) => ConfigFault::Pattern(e@),
        }
    }
}

/// The characters of each string.
pub open spec fn string_views(v: Seq<String>) -> Seq<Seq<char>> {
    v.map_values(|s: String| s@)
}

/// `names` followed by those of `fixed` that it lacks, in order.
pub open spec fn with_names(names: Seq<Seq<char>>, fixed: Seq<Seq<char>>) -> Seq<Seq<char>>
    decreases fixed.len(),
{
    if fixed.len() == 0 {
        names
    } else {
        let n = with_names(names, fixed.drop_last());
        if n.contains(fixed.last()) {
            n
        } else {
            n.push(fixed.last())
        }
    }
}

pub open spec fn word_format_message() -> Seq<char> {
    seq!['f', 'o', 'r', 'm', 'a', 't', 'M', 'e', 's', 's', 'a', 'g', 'e']
}

pub open spec fn word_t() -> Seq<char> {
    seq!['$', 't']
}

pub open spec fn word_dollar_format_message() -> Seq<char> {
    seq!['$', 'f', 'o', 'r', 'm', 'a', 't', 'M', 'e', 's', 's', 'a', 'g', 'e']
}

pub open spec fn word_formatted_message() -> Seq<char> {
    seq!['F', 'o', 'r', 'm', 'a', 't', 't', 'e', 'd', 'M', 'e', 's', 's', 'a', 'g', 'e']
}

/// The functions whose first argument is a message descriptor, besides
/// `defineMessage` and `defineMessages`.
pub open spec fn builtin_function_names() -> Seq<Seq<char>> {
    seq![word_format_message(), word_t(), word_dollar_format_message()]
}

/// The components whose attributes are a message descriptor.
pub open spec fn builtin_component_names() -> Seq<Seq<char>> {
    seq![word_formatted_message()]
}

/// The pattern in effect for some options.
pub open spec fn pattern_in(config: Config) -> Seq<char> {
    match config.id_interpolation_pattern {
        Some(p) => p@,
        None => default_pattern(),
    }
}

/// Why some options are refused, if they are: `ast`, then
/// `extractSourceLocation`, then a non-empty `pragma`, then `overrideIdFn`,
/// `onMsgExtracted` and `onMetaExtracted`, then the first bracket group of
/// the id pattern that is not a hash token.
pub open spec fn config_refusal(config: Config) -> Option<ConfigFault> {
    if config.ast {
        Some(ConfigFault::Ast)
    } else if config.extract_source_location {
        Some(ConfigFault::ExtractSourceLocation)
    } else if config.pragma is Some && config.pragma.unwrap()@.len() > 0 {
        Some(ConfigFault::Pragma(config.pragma.unwrap()@))
    } else if config.override_id_fn {
        Some(ConfigFault::OverrideIdFn)
    } else if config.on_msg_extracted {
        Some(ConfigFault::OnMsgExtracted)
    } else if config.on_meta_extracted {
        Some(ConfigFault::OnMetaExtracted)
    } else {
        match first_unsupported_token(pattern_in(config)) {
            Some(t) => Some(ConfigFault::Pattern(PatternFault::UnsupportedToken(t))),
            None => None,
        }
    }
}

/// `r` is what [`FormatJsTransform::new`] gives for `config`: the
/// refusal when there is one, and otherwise a transform that keeps the
/// options as they are but for a missing id pattern, which becomes the
/// default, with the function and component names extended with the
/// built-in ones.
pub open spec fn built_from(config: Config, r: Result<FormatJsTransform, ConfigError>) -> bool {
    match r {
        Err(e) => config_refusal(config) == Some(e@),
        Ok(t) => {
            &&& config_refusal(config) is None
            &&& t.options().id_interpolation_pattern is Some
            &&& t.pattern() == pattern_in(config)
            &&& (config.id_interpolation_pattern is Some ==> t.options().id_interpolation_pattern
                == config.id_interpolation_pattern)
            &&& t.options() == (Config {
                id_interpolation_pattern: t.options().id_interpolation_pattern,
                ..config
            })
            &&& t.functions() == with_names(
                string_views(config.additional_function_names@),
                builtin_function_names(),
            )
            &&& t.components() == with_names(
                string_views(config.additional_component_names@),
                builtin_component_names(),
            )
        },
    }
}

/// The transform: its options and the names it rewrites calls and elements
/// of.
pub struct FormatJsTransform {
    config: Config,
    component_names: Vec<String>,
    function_names: Vec<String>,
}

impl FormatJsTransform {
    /// The options in effect.
    pub closed spec fn options(&self) -> Config {
        self.config
    }

    /// The id pattern in effect.
    pub open spec fn pattern(&self) -> Seq<char> {
        pattern_in(self.options())
    }

    /// The names of the components whose descriptors are rewritten.
    pub closed spec fn components(&self) -> Seq<Seq<char>> {
        string_views(self.component_names@)
    }

    /// The names of the functions whose first argument is rewritten.
    pub closed spec fn functions(&self) -> Seq<Seq<char>> {
        string_views(self.function_names@)
    }

    /// Whether the id pattern holds hash tokens only.
    pub open spec fn pattern_valid(&self) -> bool {
        first_unsupported_token(self.pattern()) is None
    }
}

/// A copy of each string of `v`.
fn copy_strings(v: &Vec<String>) -> (r: Vec<String>)
    ensures
        string_views(r@) == string_views(v@),
{
    let mut out: Vec<String> = Vec::new();
    let mut i: usize = 0;
    while i < v.len()
        invariant
            i <= v.len(),
            string_views(out@) == string_views(v@.take(i as int)),
        decreases v.len() - i,
    {
        let s = v[i].clone();
        let ghost before = out@;
        out.push(s);
        assert(string_views(out@) =~= string_views(v@.take(i + 1))) by {
            assert(out@ == before.push(s));
            assert(v@.take(i + 1) =~= v@.take(i as int).push(v@[i as int]));
            assert(string_views(before.push(s)) =~= string_views(before).push(s@));
            assert(string_views(v@.take(i as int).push(v@[i as int])) =~= string_views(
                v@.take(i as int),
            ).push(v@[i as int]@));
        }
        i = i + 1;
    }
    assert(v@.take(i as int) =~= v@);
    out
}

/// Whether `v` holds a string equal to `s`.
fn contains_string(v: &Vec<String>, s: &String) -> (r: bool)
    ensures
        r == string_views(v@).contains(s@),
{
    let mut i: usize = 0;
    while i < v.len()
        invariant
            i <= v.len(),
            forall|j: int| 0 <= j < i ==> v@[j]@ != s@,
        decreases v.len() - i,
    {
        if v[i] == *s {
            assert(string_views(v@)[i as int] == s@);
            return true;
        }
        i = i + 1;
    }
    assert forall|j: int| 0 <= j < string_views(v@).len() implies string_views(v@)[j] != s@ by {
        assert(string_views(v@)[j] == v@[j]@);
    }
    false
}

/// Appends `s` to `names` unless it is there.
fn add_name(names: &mut Vec<String>, s: String)
    ensures
        string_views(old(names)@).contains(s@) ==> string_views(final(names)@) == string_views(
            old(names)@,
        ),
        !string_views(old(names)@).contains(s@) ==> string_views(final(names)@) == string_views(
            old(names)@,
        ).push(s@),
{
    if !contains_string(names, &s) {
        let ghost before = names@;
        names.push(s);
        assert(string_views(names@) =~= string_views(before).push(s@));
    }
}

/// The string spelled by `chars`.
fn word(chars: &[char]) -> (r: String)
    ensures
        r@ == chars@,
{
    string_from_chars(chars)
}

impl FormatJsTransform {
    /// Builds the transform from options.  `ast`, `extractSourceLocation`,
    /// a non-empty `pragma`, `overrideIdFn`, `onMsgExtracted` and
    /// `onMetaExtracted` are refused, in that order; a missing id
    /// pattern becomes [`DEFAULT_ID_INTERPOLATION_PATTERN`], and a pattern
    /// that holds a bracket group other than a hash token is refused.  The
    /// functions rewritten are the additional ones, then `formatMessage`,
    /// `$t` and `$formatMessage` where missing; the components are the
    /// additional ones, then `FormattedMessage` where missing.
    pub fn new(config: Config) -> (r: Result<FormatJsTransform, ConfigError>)
        ensures
            built_from(config, r),
    {
        let mut config = config;
        if config.ast {
            return Err(ConfigError::Ast);
        }
        if config.extract_source_location {
            return Err(ConfigError::ExtractSourceLocation);
        }
        match &config.pragma {
            Some(p) => {
                if !p.as_str().is_empty() {
                    return Err(ConfigError::Pragma(p.clone()));
                }
            },
            None => {},
        }
        if config.override_id_fn {
            return Err(ConfigError::OverrideIdFn);
        }
        if config.on_msg_extracted {
            return Err(ConfigError::OnMsgExtracted);
        }
        if config.on_meta_extracted {
            return Err(ConfigError::OnMetaExtracted);
        }
        let ghost given = config;
        if config.id_interpolation_pattern.is_none() {
            let dp: [char; 29] = [
                '[', 's', 'h', 'a', '5', '1', '2', ':', 'c', 'o', 'n', 't', 'e', 'n', 't', 'h',
                'a', 's', 'h', ':', 'b', 'a', 's', 'e', '6', '4', ':', '6', ']',
            ];
            assert(dp@ == default_pattern());
            config.id_interpolation_pattern = Some(word(&dp));
        }
        assert(pattern_in(config) == pattern_in(given));
        let checked = match &config.id_interpolation_pattern {
            Some(p) => validate_pattern(p.as_str()),
            None => Ok(()),
        };
        match checked {
            Err(e) => {
                return Err(ConfigError::Pattern(e));
            },
            Ok(()) => {},
        }
        let fm: [char; 13] = ['f', 'o', 'r', 'm', 'a', 't', 'M', 'e', 's', 's', 'a', 'g', 'e'];
        let t: [char; 2] = ['$', 't'];
        let dfm: [char; 14] = ['$', 'f', 'o', 'r', 'm', 'a', 't', 'M', 'e', 's', 's', 'a', 'g', 'e'];
        let fdm: [char; 16] = [
            'F', 'o', 'r', 'm', 'a', 't', 't', 'e', 'd', 'M', 'e', 's', 's', 'a', 'g', 'e',
        ];
        assert(fm@ == word_format_message());
        assert(t@ == word_t());
        assert(dfm@ == word_dollar_format_message());
        assert(fdm@ == word_formatted_message());
        let mut function_names = copy_strings(&config.additional_function_names);
        let ghost f0 = string_views(function_names@);
        add_name(&mut function_names, word(&fm));
        let ghost f1 = string_views(function_names@);
        add_name(&mut function_names, word(&t));
        let ghost f2 = string_views(function_names@);
        add_name(&mut function_names, word(&dfm));
        proof {
            let b = builtin_function_names();
            assert(b.drop_last().drop_last().drop_last() =~= Seq::<Seq<char>>::empty());
            assert(b.drop_last().drop_last() =~= seq![word_format_message()]);
            assert(b.drop_last() =~= seq![word_format_message(), word_t()]);
            assert(with_names(f0, b.drop_last().drop_last().drop_last()) == f0);
            assert(with_names(f0, b.drop_last().drop_last()) == f1);
            assert(with_names(f0, b.drop_last()) == f2);
        }
        let mut component_names = copy_strings(&config.additional_component_names);
        let ghost c0 = string_views(component_names@);
        add_name(&mut component_names, word(&fdm));
        proof {
            let b = builtin_component_names();
            assert(b.drop_last() =~= Seq::<Seq<char>>::empty());
            assert(with_names(c0, b.drop_last()) == c0);
        }
        Ok(FormatJsTransform { config, component_names, function_names })
    }

    /// Whether `name` is one of the functions whose first argument is a
    /// message descriptor.
    pub fn is_format_message_call(&self, name: &str) -> (r: bool)
        ensures
            r == self.functions().contains(name@),
    {
        let c = chars_of(name);
        let n = string_from_chars(&c);
        contains_string(&self.function_names, &n)
    }

    /// Whether `name` is one of the components whose attributes are a
    /// message descriptor.
    pub fn is_message_component(&self, name: &str) -> (r: bool)
        ensures
            r == self.components().contains(name@),
    {
        let c = chars_of(name);
        let n = string_from_chars(&c);
        contains_string(&self.component_names, &n)
    }

    /// Whether `removeDefaultMessage` is set.
    pub fn remove_default_message(&self) -> (r: bool)
        ensures
            r == self.options().remove_default_message,
    {
        self.config.remove_default_message
    }

    /// Whether `preserveWhitespace` is set.
    pub fn preserve_whitespace(&self) -> (r: bool)
        ensures
            r == self.options().preserve_whitespace,
    {
        self.config.preserve_whitespace
    }

    /// The id pattern in effect.
    pub fn id_pattern(&self) -> (r: &str)
        ensures
            r@ == self.pattern(),
    {
        match &self.config.id_interpolation_pattern {
            Some(p) => p.as_str(),
            None => {
                proof {
                    reveal_strlit("[sha512:contenthash:base64:6]");
                }
                assert(DEFAULT_ID_INTERPOLATION_PATTERN@ =~= default_pattern());
                DEFAULT_ID_INTERPOLATION_PATTERN
            },
        }
    }
}

/// Builds the transform from options (see [`FormatJsTransform::new`]).
pub fn formatjs(config: Config) -> (r: Result<FormatJsTransform, ConfigError>)
    ensures
        built_from(config, r),
{
    FormatJsTransform::new(config)
}

/// The default pattern is `[sha512:contenthash:base64:6]`.
proof fn lemma_default_is_base64_id()
    ensures
        default_pattern() == base64_id_pattern(Some(seq!['6'])),
        token_length(Some(seq!['6'])) == 6,
        hash_token_at(default_pattern(), 0) is Some,
{
    assert(default_pattern() =~= base64_id_pattern(Some(seq!['6'])));
    assert(decimal_value(seq!['6']) == 6) by {
        reveal_with_fuel(decimal_value, 2);
        assert(seq!['6'].drop_last() =~= Seq::<char>::empty());
    }
    lemma_base64_id_token(Some(seq!['6']));
}

/// With the default pattern, the id of a message is the standard base64
/// encoding of the SHA-512 digest of the message's UTF-8 bytes, cut to six
/// characters.
pub proof fn lemma_default_pattern_digest(content: Seq<char>)
    ensures
        interpolated(default_pattern(), content) == Ok::<Seq<char>, PatternFault>(
            digest_cut(base64_encoded(sha512_of(encode_utf8(content))), 6),
        ),
{
    lemma_default_is_base64_id();
    lemma_base64_id(Some(seq!['6']), content);
}

/// With the default pattern and a 64-byte digest (the length of every
/// SHA-512 digest, which [`crate::hash::interpolate_pattern`] states of the
/// digests it makes), the id is six characters of the base64 alphabet: the
/// first six of the encoding.
pub proof fn lemma_default_pattern_id(content: Seq<char>)
    requires
        sha512_of(encode_utf8(content)).len() == 64,
    ensures
        interpolated(default_pattern(), content) == Ok::<Seq<char>, PatternFault>(
            base64_encoded(sha512_of(encode_utf8(content))).take(6),
        ),
        interpolated(default_pattern(), content) matches Ok(id) && id.len() == 6 && forall|i: int|
            0 <= i < 6 ==> base64_alphabet().contains(#[trigger] id[i]),
{
    let bytes = sha512_of(encode_utf8(content));
    lemma_default_pattern_digest(content);
    lemma_base64_len(bytes);
    let e = base64_encoded(bytes);
    assert(e.len() == 88);
    let a = base64_alphabet();
    let rest = bytes.skip(3);
    assert(rest.len() == 61);
    let e2 = base64_encoded(rest);
    assert forall|i: int| 0 <= i < 6 implies a.contains(#[trigger] e.take(6)[i]) by {
        if i < 4 {
            let k = if i == 0 {
                bytes[0] as int / 4
            } else if i == 1 {
                (bytes[0] as int % 4) * 16 + bytes[1] as int / 16
            } else if i == 2 {
                (bytes[1] as int % 16) * 4 + bytes[2] as int / 64
            } else {
                bytes[2] as int % 64
            };
            assert(0 <= k < 64);
            assert(e[i] == a[k]);
        } else {
            let k = if i == 4 {
                rest[0] as int / 4
            } else {
                (rest[0] as int % 4) * 16 + rest[1] as int / 16
            };
            assert(0 <= k < 64);
            assert(e2[i - 4] == a[k]);
            assert(e[i] == e2[i - 4]);
        }
    }
}

} // verus!
