//! Configuration formats, configuration errors, and format detection by
//! file extension.

use vstd::prelude::*;

verus! {

/// The wire format of a configuration file.
#[derive(Clone, Copy, Debug, PartialEq, Eq, Structural)]
pub enum ConfigFormat {
    Json,
    Yaml,
    Toml,
    /// Pick by the file's extension.
    Auto,
}

/// Why a configuration document did not fit the schema.
#[derive(Clone, Debug, PartialEq)]
pub enum SchemaError {
    /// A required field is missing; carries the field name.
    MissingField(String),
    /// A field occurs twice in one map; carries the field name.
    DuplicateField(String),
    /// A value has the wrong shape for its place; carries the field
    /// name.
    InvalidValue(String),
    /// Two device types, or two device classes, share a name; carries
    /// the name.  The registries are keyed by name, so a configuration
    /// may bind each name only once.
    DuplicateName(String),
}

/// Why one format's reading of the text failed.
#[derive(Clone, Debug, PartialEq)]
pub enum ParseIssue {
    /// The text is not well formed in the format; carries the reader's
    /// message.
    Syntax(String),
    /// The document is well formed but does not fit the schema.
    Schema(SchemaError),
}

/// A parse failure, tagged with the format that was tried.
#[derive(Clone, Debug, PartialEq)]
pub enum FormatError {
    JsonError(ParseIssue),
    YamlError(ParseIssue),
    TomlError(ParseIssue),
}

/// Why a configuration could not be loaded.
#[derive(Clone, Debug, PartialEq)]
pub enum ConfigError {
    /// Auto format and an extension that names no supported format.
    InvalidExtension(String),
    /// Auto format and a file name without an extension.
    MissingExtension,
    /// The file's content could not be parsed.
    ParseError(FormatError),
    /// The file could not be read; carries the I/O error's message.
    Io(String),
}

/// The position of the last occurrence of `c`, if any.
pub open spec fn spec_find_last(s: Seq<char>, c: char) -> Option<int>
    decreases s.len(),
{
    if s.len() == 0 {
        None
    } else if s.last() == c {
        Some(s.len() - 1)
    } else {
        spec_find_last(s.drop_last(), c)
    }
}

/// Where the file name starts: right after the last path separator.
pub open spec fn spec_file_start(p: Seq<char>) -> int {
    match spec_find_last(p, '/') {
        Some(k) => k + 1,
        None => 0,
    }
}

/// The extension of the path's file name: what follows the last dot of
/// the name, provided the dot is not the name's first character.
pub open spec fn spec_extension(p: Seq<char>) -> Option<Seq<char>> {
    let name = p.skip(spec_file_start(p));
    match spec_find_last(name, '.') {
        Some(k) => if k > 0 {
            Some(name.skip(k + 1))
        } else {
            None
        },
        None => None,
    }
}

/// Finds the last occurrence of `c` in `s`.
pub fn find_last(s: &str, c: char) -> (r: Option<usize>)
    ensures
        match r {
            Some(i) => i < s@.len() && spec_find_last(s@, c) == Some(i as int),
            None => spec_find_last(s@, c) is None,
        },
{
    let n = s.unicode_len();
    let mut i: usize = n;
    proof {
        assert(s@.take(n as int) =~= s@);
    }
    loop
        invariant
            i <= n,
            n == s@.len(),
            spec_find_last(s@, c) == spec_find_last(s@.take(i as int), c),
        decreases i,
    {
        if i == 0 {
            return None;
        }
        let ch = s.get_char(i - 1);
        proof {
            assert(s@.take(i as int).last() == s@[i - 1]);
        }
        if ch == c {
            return Some(i - 1);
        }
        proof {
            assert(s@.take(i as int).drop_last() =~= s@.take(i - 1));
        }
        i -= 1;
    }
}

/// The extension of the path's file name, if it has one.
pub fn extension_of(path: &str) -> (r: Option<String>)
    ensures
        match r {
            Some(e) => spec_extension(path@) == Some(e@),
            None => spec_extension(path@) is None,
        },
{
    let n = path.unicode_len();
    let start = match find_last(path, '/') {
        Some(k) => k + 1,
        None => 0,
    };
    let name = path.substring_char(start, n);
    proof {
        assert(name@ == path@.skip(spec_file_start(path@)));
    }
    match find_last(name, '.') {
        None => None,
        Some(k) => {
            if k == 0 {
                None
            } else {
                let ext = name.substring_char(k + 1, name.unicode_len());
                Some(String::from_str(ext))
            }
        },
    }
}

/// Resolves the format to use for a file: an explicit format stands;
/// under `Auto` the extension decides (`json`, `yaml` or `yml`, `toml`),
/// an unknown extension or a name without one is an error.
pub fn resolve_format(path: &str, format: ConfigFormat) -> (r: Result<ConfigFormat, ConfigError>)
    ensures
        format != ConfigFormat::Auto ==> r == Ok::<ConfigFormat, ConfigError>(format),
        format == ConfigFormat::Auto ==> match spec_extension(path@) {
            None => r == Err::<ConfigFormat, ConfigError>(ConfigError::MissingExtension),
            Some(e) => {
                if e == "toml"@ {
                    r == Ok::<ConfigFormat, ConfigError>(ConfigFormat::Toml)
                } else if e == "yaml"@ || e == "yml"@ {
                    r == Ok::<ConfigFormat, ConfigError>(ConfigFormat::Yaml)
                } else if e == "json"@ {
                    r == Ok::<ConfigFormat, ConfigError>(ConfigFormat::Json)
                } else {
                    r matches Err(ConfigError::InvalidExtension(x)) && x@ == e
                }
            },
        },
{
    match format {
        ConfigFormat::Json => Ok(ConfigFormat::Json),
        ConfigFormat::Yaml => Ok(ConfigFormat::Yaml),
        ConfigFormat::Toml => Ok(ConfigFormat::Toml),
        ConfigFormat::Auto => {
            match extension_of(path) {
                None => Err(ConfigError::MissingExtension),
                Some(e) => {
                    if e == String::from_str("toml") {
                        Ok(ConfigFormat::Toml)
                    } else if e == String::from_str("yaml") || e == String::from_str("yml") {
                        Ok(ConfigFormat::Yaml)
                    } else if e == String::from_str("json") {
                        Ok(ConfigFormat::Json)
                    } else {
                        Err(ConfigError::InvalidExtension(e))
                    }
                },
            }
        },
    }
}

} // verus!

use crate::config::Config;
use crate::config_doc::{config_from_doc, rep_config, spec_config};
use crate::doc::{
    json_doc_of, parse_json, parse_toml, parse_yaml, toml_doc_of, yaml_doc_of, DocView,
};
use crate::intern::{interner_extends, Interner};

verus! {

/// What parsing a text in a given (non-auto) format yields: the format's
/// document, read through the schema.
pub open spec fn spec_parse_text(s: Seq<char>, format: ConfigFormat) -> Option<
    crate::config_doc::RawConfigView,
> {
    let doc = match format {
        ConfigFormat::Json => json_doc_of(s),
        ConfigFormat::Yaml => yaml_doc_of(s),
        ConfigFormat::Toml => toml_doc_of(s),
        ConfigFormat::Auto => None::<DocView>,
    };
    match doc {
        Some(dv) => spec_config(dv),
        None => None,
    }
}

/// When reading a text in a given (non-auto) format succeeds: the text
/// parses, fits the schema, and binds each device-type and device-class
/// name once.
pub open spec fn spec_parse_ok(s: Seq<char>, format: ConfigFormat) -> bool {
    &&& spec_parse_text(s, format) is Some
    &&& crate::config_doc::config_names_unique(spec_parse_text(s, format)->0)
}

/// The error a failed parse in format `f` carries: a parse error tagged
/// with the format, a syntax issue exactly when the format's reader
/// rejected the text, a schema issue otherwise.
pub open spec fn spec_parse_error_shape(e: ConfigError, s: Seq<char>, f: ConfigFormat) -> bool {
    e matches ConfigError::ParseError(fe) && match f {
        ConfigFormat::Json => fe matches FormatError::JsonError(issue) && ((issue is Syntax)
            <==> json_doc_of(s) is None),
        ConfigFormat::Yaml => fe matches FormatError::YamlError(issue) && ((issue is Syntax)
            <==> yaml_doc_of(s) is None),
        ConfigFormat::Toml => fe matches FormatError::TomlError(issue) && ((issue is Syntax)
            <==> toml_doc_of(s) is None),
        ConfigFormat::Auto => false,
    }
}

/// The format a path and an explicit choice resolve to, if any.
pub open spec fn spec_resolved_format(p: Seq<char>, format: ConfigFormat) -> Option<ConfigFormat> {
    if format != ConfigFormat::Auto {
        Some(format)
    } else {
        match spec_extension(p) {
            None => None,
            Some(e) => if e == "toml"@ {
                Some(ConfigFormat::Toml)
            } else if e == "yaml"@ || e == "yml"@ {
                Some(ConfigFormat::Yaml)
            } else if e == "json"@ {
                Some(ConfigFormat::Json)
            } else {
                None
            },
        }
    }
}

/// Parses a configuration text in one concrete format: the format's
/// reader yields the document, the schema reads the configuration out of
/// it.  Succeeds exactly when both steps do and each device-type and
/// device-class name binds once; a reader failure and a schema failure
/// are told apart in the error, tagged with the format.
pub fn parse_config_text(text: &str, format: ConfigFormat, im: &mut Interner) -> (r: Result<
    Config,
    ConfigError,
>)
    requires
        old(im).wf(),
        format != ConfigFormat::Auto,
    ensures
        final(im).wf(),
        interner_extends(final(im)@, old(im)@),
        match r {
            Ok(c) => spec_parse_ok(text@, format) && rep_config(
                c,
                final(im)@,
                spec_parse_text(text@, format)->0,
            ) && crate::engine::Engine::config_wf(c),
            Err(e) => !spec_parse_ok(text@, format) && spec_parse_error_shape(
                e,
                text@,
                format,
            ),
        },
{
    let parsed = match format {
        ConfigFormat::Json => parse_json(text),
        ConfigFormat::Yaml => parse_yaml(text),
        ConfigFormat::Toml => parse_toml(text),
        ConfigFormat::Auto => {
            return Err(ConfigError::MissingExtension);
        },
    };
    let doc = match parsed {
        Ok(d) => d,
        Err(msg) => {
            let issue = ParseIssue::Syntax(msg);
            return Err(
                ConfigError::ParseError(
                    match format {
                        ConfigFormat::Json => FormatError::JsonError(issue),
                        ConfigFormat::Yaml => FormatError::YamlError(issue),
                        _ => FormatError::TomlError(issue),
                    },
                ),
            );
        },
    };
    match config_from_doc(&doc, im) {
        Ok(c) => Ok(c),
        Err(se) => {
            let issue = ParseIssue::Schema(se);
            Err(
                ConfigError::ParseError(
                    match format {
                        ConfigFormat::Json => FormatError::JsonError(issue),
                        ConfigFormat::Yaml => FormatError::YamlError(issue),
                        _ => FormatError::TomlError(issue),
                    },
                ),
            )
        },
    }
}

/// Parses a configuration file's text, the format chosen explicitly or
/// by the file's extension.
pub fn parse_config(path: &str, format: ConfigFormat, text: &str, im: &mut Interner) -> (r: Result<
    Config,
    ConfigError,
>)
    requires
        old(im).wf(),
    ensures
        final(im).wf(),
        interner_extends(final(im)@, old(im)@),
        match spec_resolved_format(path@, format) {
            Some(f) => match r {
                Ok(c) => spec_parse_ok(text@, f) && rep_config(
                    c,
                    final(im)@,
                    spec_parse_text(text@, f)->0,
                ) && crate::engine::Engine::config_wf(c),
                Err(e) => !spec_parse_ok(text@, f) && spec_parse_error_shape(
                    e,
                    text@,
                    f,
                ),
            },
            None => match spec_extension(path@) {
                None => r == Err::<Config, ConfigError>(ConfigError::MissingExtension),
                Some(ext) => r matches Err(ConfigError::InvalidExtension(x)) && x@ == ext,
            },
        },
{
    let resolved = match resolve_format(path, format) {
        Ok(f) => f,
        Err(e) => {
            return Err(e);
        },
    };
    parse_config_text(text, resolved, im)
}

} // verus!

verus! {

/// Serializes a configuration to text in one concrete format: the
/// configuration's document rendered by the format's writer.  Succeeds
/// exactly when the format can render that document (TOML refuses some
/// shapes; JSON and YAML render every configuration document).
pub fn config_to_text(c: &Config, im: &Interner, format: ConfigFormat) -> (r: Result<
    String,
    String,
>)
    requires
        crate::config_doc::config_valid(*c, im@),
        format != ConfigFormat::Auto,
    ensures
        ({
            let dv = crate::config_doc::doc_of_config(crate::config_doc::raw_of_config(*c, im@));
            match r {
                Ok(s) => match format {
                    ConfigFormat::Json => crate::doc::json_text_of(dv) == Some(s@),
                    ConfigFormat::Yaml => crate::doc::yaml_text_of(dv) == Some(s@),
                    ConfigFormat::Toml => crate::doc::toml_text_of(dv) == Some(s@),
                    ConfigFormat::Auto => false,
                },
                Err(_) => match format {
                    ConfigFormat::Json => crate::doc::json_text_of(dv) is None,
                    ConfigFormat::Yaml => crate::doc::yaml_text_of(dv) is None,
                    ConfigFormat::Toml => crate::doc::toml_text_of(dv) is None,
                    ConfigFormat::Auto => true,
                },
            }
        }),
{
    let doc = crate::config_doc::config_to_doc(c, im);
    match format {
        ConfigFormat::Json => crate::doc::to_json_text(&doc),
        ConfigFormat::Yaml => crate::doc::to_yaml_text(&doc),
        ConfigFormat::Toml => crate::doc::to_toml_text(&doc),
        ConfigFormat::Auto => Err(String::from_str("auto")),
    }
}

} // verus!
