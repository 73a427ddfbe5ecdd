//! The arguments of the `#[vpratt::parser(...)]` attribute, and the output
//! and error types read off the handlers' signatures.
//!
//! Arguments are `key = value` pairs; each value is kept as its source text.
//! A handler's signature is described by its attributes (as paths) and its
//! return type (its text and, when it is `...::Result<A, B>`, the two type
//! arguments).

use vstd::prelude::*;
use crate::dsl::{Entry, Table, TableError, check_upto, validate};
use crate::engine::{Precedence, VprattCore};
use crate::plan::{LedArm, NudArm, lbp_plan, led_plan, nud_plan, plan_of};

verus! {

/// One `key = value` argument.
pub struct ConfigArg {
    pub key: String,
    pub value: String,
}

/// The settings of a parser: the stream to read (required), the item,
/// routing token, output and error types, the extraction closure, the name
/// of the entry method and the table, each as source text.
#[derive(Debug, PartialEq)]
pub struct ParserConfig {
    pub stream: String,
    pub item: Option<String>,
    pub token: Option<String>,
    pub output: Option<String>,
    pub error: Option<String>,
    pub extract: Option<String>,
    pub entry: Option<String>,
    pub _table: Option<String>,
}

/// The settings read so far, the stream included only once given.
pub struct Settings {
    pub stream: Option<String>,
    pub item: Option<String>,
    pub token: Option<String>,
    pub output: Option<String>,
    pub error: Option<String>,
    pub extract: Option<String>,
    pub entry: Option<String>,
    pub table: Option<String>,
}

/// Why the arguments are refused.
#[derive(Debug, PartialEq)]
pub enum ConfigError {
    /// A key other than `stream`, `item`, `token`, `output`, `error`,
    /// `extract`, `entry` or `table`.
    UnknownKey(String),
    /// No `stream` argument.
    MissingStream,
}

/// Nothing set.
spec fn no_settings() -> Settings {
    Settings {
        stream: None,
        item: None,
        token: None,
        output: None,
        error: None,
        extract: None,
        entry: None,
        table: None,
    }
}

/// The settings after one more argument: its key's setting takes its value
/// (a later argument with the same key wins).
spec fn apply_arg(s: Settings, a: ConfigArg) -> Result<Settings, ConfigError> {
    if a.key@ == "item"@ {
        Ok(Settings { item: Some(a.value), ..s })
    } else if a.key@ == "token"@ {
        Ok(Settings { token: Some(a.value), ..s })
    } else if a.key@ == "output"@ {
        Ok(Settings { output: Some(a.value), ..s })
    } else if a.key@ == "error"@ {
        Ok(Settings { error: Some(a.value), ..s })
    } else if a.key@ == "stream"@ {
        Ok(Settings { stream: Some(a.value), ..s })
    } else if a.key@ == "extract"@ {
        Ok(Settings { extract: Some(a.value), ..s })
    } else if a.key@ == "table"@ {
        Ok(Settings { table: Some(a.value), ..s })
    } else if a.key@ == "entry"@ {
        Ok(Settings { entry: Some(a.value), ..s })
    } else {
        Err(ConfigError::UnknownKey(a.key))
    }
}

/// The settings after the arguments in order, or the first unknown key.
spec fn settings_of(args: Seq<ConfigArg>) -> Result<Settings, ConfigError>
    decreases args.len(),
{
    if args.len() == 0 {
        Ok(no_settings())
    } else {
        match settings_of(args.drop_last()) {
            Err(e) => Err(e),
            Ok(s) => apply_arg(s, args.last()),
        }
    }
}

/// Whether a key is one the attribute knows: `stream`, `item`, `token`,
/// `output`, `error`, `extract`, `table` or `entry`.
pub open spec fn known_key(k: Seq<char>) -> bool {
    ||| k == "stream"@
    ||| k == "item"@
    ||| k == "token"@
    ||| k == "output"@
    ||| k == "error"@
    ||| k == "extract"@
    ||| k == "table"@
    ||| k == "entry"@
}

/// The index of the first argument whose key is unknown, if any.
pub open spec fn first_unknown(args: Seq<ConfigArg>) -> Option<int>
    decreases args.len(),
{
    if args.len() == 0 {
        None
    } else {
        match first_unknown(args.drop_last()) {
            Some(i) => Some(i),
            None => if known_key(args.last().key@) {
                None
            } else {
                Some(args.len() - 1)
            },
        }
    }
}

/// The value of the last argument whose key is `k`, if any.
pub open spec fn last_value(args: Seq<ConfigArg>, k: Seq<char>) -> Option<String>
    decreases args.len(),
{
    if args.len() == 0 {
        None
    } else if args.last().key@ == k {
        Some(args.last().value)
    } else {
        last_value(args.drop_last(), k)
    }
}

/// The configuration the arguments give: the first unknown key is refused;
/// otherwise each setting is the value of the last argument with its key,
/// and `stream` is required.
pub open spec fn config_of(args: Seq<ConfigArg>) -> Result<ParserConfig, ConfigError> {
    match first_unknown(args) {
        Some(i) => Err(ConfigError::UnknownKey(args[i].key)),
        None => match last_value(args, "stream"@) {
            None => Err(ConfigError::MissingStream),
            Some(stream) => Ok(
                ParserConfig {
                    stream,
                    item: last_value(args, "item"@),
                    token: last_value(args, "token"@),
                    output: last_value(args, "output"@),
                    error: last_value(args, "error"@),
                    extract: last_value(args, "extract"@),
                    entry: last_value(args, "entry"@),
                    _table: last_value(args, "table"@),
                },
            ),
        },
    }
}

/// Reading the arguments one by one gives the first unknown key, or each
/// setting as the last value given for its key.
proof fn lemma_settings_of(args: Seq<ConfigArg>)
    ensures
        first_unknown(args) matches Some(i) ==> 0 <= i < args.len(),
        settings_of(args) == (match first_unknown(args) {
            Some(i) => Err(ConfigError::UnknownKey(args[i].key)),
            None => Ok(
                Settings {
                    stream: last_value(args, "stream"@),
                    item: last_value(args, "item"@),
                    token: last_value(args, "token"@),
                    output: last_value(args, "output"@),
                    error: last_value(args, "error"@),
                    extract: last_value(args, "extract"@),
                    entry: last_value(args, "entry"@),
                    table: last_value(args, "table"@),
                },
            ),
        }),
    decreases args.len(),
{
    reveal_strlit("stream");
    reveal_strlit("item");
    reveal_strlit("token");
    reveal_strlit("output");
    reveal_strlit("error");
    reveal_strlit("extract");
    reveal_strlit("table");
    reveal_strlit("entry");
    // The keys differ in their first two characters.
    assert("stream"@[0] == 's' && "item"@[0] == 'i' && "token"@[0] == 't' && "output"@[0] == 'o');
    assert("error"@[0] == 'e' && "extract"@[0] == 'e' && "table"@[0] == 't' && "entry"@[0] == 'e');
    assert("token"@[1] == 'o' && "table"@[1] == 'a');
    assert("error"@[1] == 'r' && "extract"@[1] == 'x' && "entry"@[1] == 'n');
    if args.len() > 0 {
        let rest = args.drop_last();
        lemma_settings_of(rest);
        match first_unknown(rest) {
            Some(i) => {
                assert(args[i] == rest[i]);
            },
            None => {
                let k = args.last().key@;
                if known_key(k) {
                    let s0 = settings_of(rest)->Ok_0;
                    let s1 = apply_arg(s0, args.last())->Ok_0;
                    assert(s1.stream == last_value(args, "stream"@));
                    assert(s1.item == last_value(args, "item"@));
                    assert(s1.token == last_value(args, "token"@));
                    assert(s1.output == last_value(args, "output"@));
                    assert(s1.error == last_value(args, "error"@));
                    assert(s1.extract == last_value(args, "extract"@));
                    assert(s1.entry == last_value(args, "entry"@));
                    assert(s1.table == last_value(args, "table"@));
                }
            },
        }
    }
}

/// Applies one argument to the settings.
fn apply(s: Settings, a: &ConfigArg) -> (r: Result<Settings, ConfigError>)
    ensures
        r == apply_arg(s, *a),
{
    let value = a.value.clone();
    if a.key == String::from_str("item") {
        Ok(Settings { item: Some(value), ..s })
    } else if a.key == String::from_str("token") {
        Ok(Settings { token: Some(value), ..s })
    } else if a.key == String::from_str("output") {
        Ok(Settings { output: Some(value), ..s })
    } else if a.key == String::from_str("error") {
        Ok(Settings { error: Some(value), ..s })
    } else if a.key == String::from_str("stream") {
        Ok(Settings { stream: Some(value), ..s })
    } else if a.key == String::from_str("extract") {
        Ok(Settings { extract: Some(value), ..s })
    } else if a.key == String::from_str("table") {
        Ok(Settings { table: Some(value), ..s })
    } else if a.key == String::from_str("entry") {
        Ok(Settings { entry: Some(value), ..s })
    } else {
        Err(ConfigError::UnknownKey(a.key.clone()))
    }
}

impl ParserConfig {
    /// Reads the attribute's arguments in order; an unknown key is refused,
    /// a repeated key keeps its last value, and `stream` must be given.
    pub fn parse(args: &Vec<ConfigArg>) -> (r: Result<ParserConfig, ConfigError>)
        ensures
            r == config_of(args@),
    {
        let mut s = Settings {
            stream: None,
            item: None,
            token: None,
            output: None,
            error: None,
            extract: None,
            entry: None,
            table: None,
        };
        let n = args.len();
        let mut i: usize = 0;
        proof {
            assert(args@.take(0) =~= Seq::<ConfigArg>::empty());
        }
        while i < n
            invariant
                n == args@.len(),
                i <= n,
                settings_of(args@.take(i as int)) == Ok::<Settings, ConfigError>(s),
            decreases n - i,
        {
            proof {
                assert(args@.take(i + 1).drop_last() =~= args@.take(i as int));
                assert(args@.take(i + 1).last() == args@[i as int]);
            }
            s = match apply(s, &args[i]) {
                Ok(next) => next,
                Err(e) => {
                    proof {
                        assert(settings_of(args@.take(i + 1)) == Err::<Settings, ConfigError>(e));
                        lemma_settings_error_sticks(args@, (i + 1) as int, n as int);
                        assert(args@.take(n as int) =~= args@);
                        lemma_settings_of(args@);
                    }
                    return Err(e);
                },
            };
            i = i + 1;
        }
        proof {
            assert(args@.take(n as int) =~= args@);
            lemma_settings_of(args@);
        }
        match s.stream {
            None => Err(ConfigError::MissingStream),
            Some(stream) => Ok(
                ParserConfig {
                    stream,
                    item: s.item,
                    token: s.token,
                    output: s.output,
                    error: s.error,
                    extract: s.extract,
                    entry: s.entry,
                    _table: s.table,
                },
            ),
        }
    }
}

/// Once an argument is refused, later arguments do not change the verdict.
proof fn lemma_settings_error_sticks(args: Seq<ConfigArg>, i: int, m: int)
    requires
        0 <= i <= m <= args.len(),
        settings_of(args.take(i)) is Err,
    ensures
        settings_of(args.take(m)) == settings_of(args.take(i)),
    decreases m - i,
{
    if m > i {
        lemma_settings_error_sticks(args, i, m - 1);
        assert(args.take(m).drop_last() =~= args.take(m - 1));
    } else {
        assert(args.take(m) =~= args.take(i));
    }
    if m == args.len() {
        assert(args.take(m) =~= args);
    }
}

/// The declared return type of a method.
pub struct ReturnType {
    /// The whole type, as source text.
    pub text: String,
    /// The last segment of the type's path, when the type is a path.
    pub last_segment: Option<String>,
    /// The first two generic arguments of that last segment, when both are types.
    pub leading_type_args: Option<(String, String)>,
}

/// What the type inference reads of a method in the parser's impl block.
pub struct MethodSig {
    /// The paths of its attributes, segment by segment.
    pub attrs: Vec<Vec<String>>,
    /// Its declared return type, if any.
    pub output: Option<ReturnType>,
}

/// Why the handler types cannot be inferred.
#[derive(Debug, PartialEq)]
pub enum InferError {
    /// No method tagged as a handler declares a return type.
    NoHandler,
    /// The handlers return a `Result` whose type arguments do not name the
    /// output type (such as `vpratt::Result<Self>`), and no `output` is configured.
    OutputUnknown,
}

/// An attribute path that marks a handler: `vpratt::handler` or `handler`.
pub open spec fn is_handler_path(p: Seq<String>) -> bool {
    ||| p.len() == 2 && p[0]@ == "vpratt"@ && p[1]@ == "handler"@
    ||| p.len() == 1 && p[0]@ == "handler"@
}

/// Whether a method is tagged as a handler.
pub open spec fn is_tagged(m: MethodSig) -> bool {
    exists|i: int| 0 <= i < m.attrs@.len() && is_handler_path(#[trigger] m.attrs@[i]@)
}

/// The output type, and the custom error type if any, that a handler's
/// return type declares: `Result<Output, Error>` names both; any other type
/// is the output, with the engine's own error type.
pub open spec fn types_of(r: ReturnType) -> (String, Option<String>) {
    match (r.last_segment, r.leading_type_args) {
        (Some(seg), Some((ok, err))) => if seg@ == "Result"@ {
            (ok, Some(err))
        } else {
            (r.text, None)
        },
        _ => (r.text, None),
    }
}

/// The return type of the first method tagged as a handler that declares one.
pub open spec fn handler_return(ms: Seq<MethodSig>) -> Option<ReturnType>
    decreases ms.len(),
{
    if ms.len() == 0 {
        None
    } else if is_tagged(ms[0]) && ms[0].output is Some {
        ms[0].output
    } else {
        handler_return(ms.drop_first())
    }
}

/// The types read off the handlers' return type.
pub open spec fn inferred_types(ms: Seq<MethodSig>) -> Result<(String, Option<String>), InferError> {
    match handler_return(ms) {
        Some(r) => Ok(types_of(r)),
        None => Err(InferError::NoHandler),
    }
}

/// Whether a return type is a `Result` (by the last segment of its path).
pub open spec fn returns_result(r: ReturnType) -> bool {
    r.last_segment matches Some(seg) && seg@ == "Result"@
}

/// A method is a handler when any one of its attributes, at any position,
/// is `vpratt::handler` or `handler`: an attribute with that path makes the
/// method a handler, and attributes with other paths, added in front or
/// anywhere, change nothing.
pub proof fn lemma_tag_anywhere(m: MethodSig, m2: MethodSig, i: int, extra: Vec<String>)
    ensures
        0 <= i < m.attrs@.len() && is_handler_path(m.attrs@[i]@) ==> is_tagged(m),
        (forall|j: int| 0 <= j < m.attrs@.len() ==> !is_handler_path(#[trigger] m.attrs@[j]@)) ==> !is_tagged(m),
        m2.attrs@ == seq![extra] + m.attrs@ && !is_handler_path(extra@) ==> is_tagged(m2) == is_tagged(m),
        m2.attrs@ == m.attrs@.push(extra) && !is_handler_path(extra@) ==> is_tagged(m2) == is_tagged(m),
        m2.attrs@.to_multiset() == m.attrs@.to_multiset() ==> is_tagged(m2) == is_tagged(m),
{
    if m2.attrs@ == seq![extra] + m.attrs@ && !is_handler_path(extra@) {
        if is_tagged(m) {
            let k = choose|k: int| 0 <= k < m.attrs@.len() && is_handler_path(#[trigger] m.attrs@[k]@);
            assert(m2.attrs@[k + 1] == m.attrs@[k]);
        }
        if is_tagged(m2) {
            let k = choose|k: int| 0 <= k < m2.attrs@.len() && is_handler_path(#[trigger] m2.attrs@[k]@);
            assert(k > 0);
            assert(m2.attrs@[k] == m.attrs@[k - 1]);
        }
    }
    if m2.attrs@ == m.attrs@.push(extra) && !is_handler_path(extra@) {
        if is_tagged(m) {
            let k = choose|k: int| 0 <= k < m.attrs@.len() && is_handler_path(#[trigger] m.attrs@[k]@);
            assert(m2.attrs@[k] == m.attrs@[k]);
        }
        if is_tagged(m2) {
            let k = choose|k: int| 0 <= k < m2.attrs@.len() && is_handler_path(#[trigger] m2.attrs@[k]@);
            assert(k < m.attrs@.len());
            assert(m2.attrs@[k] == m.attrs@[k]);
        }
    }
    if m2.attrs@.to_multiset() == m.attrs@.to_multiset() {
        if is_tagged(m) {
            let k = choose|k: int| 0 <= k < m.attrs@.len() && is_handler_path(#[trigger] m.attrs@[k]@);
            let x = m.attrs@[k];
            m.attrs@.to_multiset_ensures();
            m2.attrs@.to_multiset_ensures();
            assert(m.attrs@.contains(x));
            assert(m.attrs@.to_multiset().count(x) > 0);
            assert(m2.attrs@.to_multiset().count(x) > 0);
            assert(m2.attrs@.contains(x));
            let j = choose|j: int| 0 <= j < m2.attrs@.len() && m2.attrs@[j] == x;
            assert(is_handler_path(m2.attrs@[j]@));
        }
        if is_tagged(m2) {
            let k = choose|k: int| 0 <= k < m2.attrs@.len() && is_handler_path(#[trigger] m2.attrs@[k]@);
            let x = m2.attrs@[k];
            m.attrs@.to_multiset_ensures();
            m2.attrs@.to_multiset_ensures();
            assert(m2.attrs@.contains(x));
            assert(m2.attrs@.to_multiset().count(x) > 0);
            assert(m.attrs@.to_multiset().count(x) > 0);
            assert(m.attrs@.contains(x));
            let j = choose|j: int| 0 <= j < m.attrs@.len() && m.attrs@[j] == x;
            assert(is_handler_path(m.attrs@[j]@));
        }
    }
}

/// The types read off the handlers depend only on which methods are
/// handlers and on their return types: methods that agree on both, in the
/// same order, give the same types (so reordering or adding attributes other
/// than the handler tag changes nothing).
pub proof fn lemma_inferred_types_depend_on_tags(ms: Seq<MethodSig>, ms2: Seq<MethodSig>)
    requires
        ms.len() == ms2.len(),
        forall|i: int|
            0 <= i < ms.len() ==> is_tagged(#[trigger] ms[i]) == is_tagged(ms2[i]) && ms[i].output
                == ms2[i].output,
    ensures
        handler_return(ms) == handler_return(ms2),
        inferred_types(ms) == inferred_types(ms2),
    decreases ms.len(),
{
    if ms.len() > 0 {
        assert(is_tagged(ms[0]) == is_tagged(ms2[0]));
        let (t, t2) = (ms.drop_first(), ms2.drop_first());
        assert forall|i: int| 0 <= i < t.len() implies is_tagged(#[trigger] t[i]) == is_tagged(t2[i])
            && t[i].output == t2[i].output by {
            assert(t[i] == ms[i + 1] && t2[i] == ms2[i + 1]);
        }
        lemma_inferred_types_depend_on_tags(t, t2);
    }
}

/// Whether an attribute path marks a handler.
fn handler_path(p: &Vec<String>) -> (r: bool)
    ensures
        r == is_handler_path(p@),
{
    if p.len() == 2 {
        p[0] == String::from_str("vpratt") && p[1] == String::from_str("handler")
    } else if p.len() == 1 {
        p[0] == String::from_str("handler")
    } else {
        false
    }
}

/// Whether a method is tagged as a handler.
fn tagged(m: &MethodSig) -> (r: bool)
    ensures
        r == is_tagged(*m),
{
    let n = m.attrs.len();
    let mut i: usize = 0;
    while i < n
        invariant
            n == m.attrs@.len(),
            i <= n,
            forall|j: int| 0 <= j < i ==> !is_handler_path(#[trigger] m.attrs@[j]@),
        decreases n - i,
    {
        if handler_path(&m.attrs[i]) {
            return true;
        }
        i = i + 1;
    }
    false
}

/// The index of the first method tagged as a handler that declares a return type.
fn first_handler(methods: &Vec<MethodSig>) -> (r: Option<usize>)
    ensures
        match r {
            Some(i) => i < methods@.len() && methods@[i as int].output is Some && handler_return(methods@)
                == methods@[i as int].output,
            None => handler_return(methods@) is None,
        },
{
    let n = methods.len();
    let mut i: usize = 0;
    proof {
        assert(methods@.skip(0) =~= methods@);
    }
    while i < n
        invariant
            n == methods@.len(),
            i <= n,
            handler_return(methods@) == handler_return(methods@.skip(i as int)),
        decreases n - i,
    {
        proof {
            assert(methods@.skip(i as int)[0] == methods@[i as int]);
            assert(methods@.skip(i as int).drop_first() =~= methods@.skip(i + 1));
        }
        if tagged(&methods[i]) && methods[i].output.is_some() {
            return Some(i);
        }
        i = i + 1;
    }
    proof {
        assert(methods@.skip(i as int).len() == 0);
    }
    None
}

/// Whether a return type is a `Result`.
fn is_result(ret: &ReturnType) -> (r: bool)
    ensures
        r == returns_result(*ret),
{
    match &ret.last_segment {
        Some(seg) => *seg == String::from_str("Result"),
        None => false,
    }
}

/// The output type and, when the handlers return `Result<Output, Error>`,
/// the custom error type, read off the first method tagged as a handler that
/// declares a return type.
pub fn infer_types_from_handlers(methods: &Vec<MethodSig>) -> (r: Result<(String, Option<String>), InferError>)
    ensures
        r == inferred_types(methods@),
{
    match first_handler(methods) {
        None => Err(InferError::NoHandler),
        Some(i) => match &methods[i].output {
            Some(ret) => Ok(
                match (&ret.last_segment, &ret.leading_type_args) {
                    (Some(seg), Some((ok, err))) => if *seg == String::from_str("Result") {
                        (ok.clone(), Some(err.clone()))
                    } else {
                        (ret.text.clone(), None)
                    },
                    _ => (ret.text.clone(), None),
                },
            ),
            None => Err(InferError::NoHandler),
        },
    }
}

/// The error type of a generated parser.
#[derive(Debug, PartialEq)]
pub enum ErrorChoice {
    /// The engine's own `VprattError<Item, PrattToken>`, passed through unchanged.
    Engine,
    /// The handlers' custom error type, converted from engine errors with `into`.
    Custom(String),
}

/// The generated engine impl: the entry method's name, the item type, the
/// routing token type, the extraction closure, the output and error types, whether
/// handler results are wrapped in `Ok` (handlers that return a bare output),
/// and the arms of the binding-power match and of the prefix and infix
/// dispatch, in table order.
#[derive(Debug, PartialEq)]
pub struct CoreImpl<K, H> {
    pub entry: String,
    pub item: String,
    pub token: String,
    pub extract: String,
    pub output: String,
    pub error: ErrorChoice,
    pub wrap_in_ok: bool,
    pub nud_arms: Vec<NudArm<K, H>>,
    pub led_arms: Vec<LedArm<K, H>>,
    pub lbp_arms: Vec<(K, Precedence)>,
}

/// The error type the inferred custom error (if any) gives.
pub open spec fn error_choice_of(custom: Option<String>) -> ErrorChoice {
    match custom {
        Some(e) => ErrorChoice::Custom(e),
        None => ErrorChoice::Engine,
    }
}

/// The item type's text: the configured one, or `Self::Item`.
pub open spec fn item_text(config: ParserConfig) -> Seq<char> {
    match config.item {
        Some(i) => i@,
        None => "Self::Item"@,
    }
}

/// Whether the output type can be read neither off the configuration nor
/// off the handlers' return type `ret`: a `Result` that does not name both
/// its type arguments, with no `output` configured.
pub open spec fn output_unknown(config: ParserConfig, ret: ReturnType) -> bool {
    config.output is None && returns_result(ret) && types_of(ret).1 is None
}

/// `c` is the engine impl for `config`, the handlers' return type `ret`, the
/// table `entries`, and whether the item type carries `#[vpratt::token]`
/// (`item_is_token`):
/// - the item type: the configured one, else the stream's item;
/// - output and error types: the configured ones when given, else those read
///   off the handlers (an error type the handlers name is custom, else the
///   engine's own);
/// - `Ok` wrapping exactly when the handlers do not return a `Result`;
/// - the entry name: the configured one, else `pratt_parse`;
/// - the routing token type and the extraction: the configured ones; else,
///   when the item type carries `#[vpratt::token]`, those of its
///   `VprattToken` impl; else the item itself and a clone;
/// - the arms: the table's plan.
pub open spec fn core_plan<K, H>(
    c: CoreImpl<K, H>,
    config: ParserConfig,
    ret: ReturnType,
    entries: Seq<Entry<K, H>>,
    item_is_token: bool,
) -> bool {
    let types = types_of(ret);
    &&& c.item@ == (match config.item {
        Some(i) => i@,
        None => "<std::iter::Peekable<I> as std::iter::Iterator>::Item"@,
    })
    &&& c.output == (match config.output {
        Some(o) => o,
        None => types.0,
    })
    &&& c.error == (match config.error {
        Some(e) => ErrorChoice::Custom(e),
        None => error_choice_of(types.1),
    })
    &&& c.wrap_in_ok == !returns_result(ret)
    &&& c.entry@ == (match config.entry {
        Some(e) => e@,
        None => "pratt_parse"@,
    })
    &&& c.token@ == (match config.token {
        Some(t) => t@,
        None => if item_is_token {
            "<"@ + item_text(config) + " as ::vpratt::VprattToken>::PrattToken"@
        } else {
            "Self::Item"@
        },
    })
    &&& c.extract@ == (match config.extract {
        Some(x) => x@,
        None => if item_is_token {
            "<"@ + item_text(config) + " as ::vpratt::VprattToken>::extract"@
        } else {
            "|t| t.clone()"@
        },
    })
    &&& c.nud_arms@ == nud_plan(entries)
    &&& c.led_arms@ == led_plan(entries)
    &&& c.lbp_arms@ == lbp_plan(entries)
}

/// What generating the engine impl gives: `NoHandler` when no handler
/// declares a return type, `OutputUnknown` when the output type cannot be
/// read, else the impl `core_plan` describes.
pub open spec fn generated<K, H>(
    r: Result<CoreImpl<K, H>, InferError>,
    config: ParserConfig,
    methods: Seq<MethodSig>,
    entries: Seq<Entry<K, H>>,
    item_is_token: bool,
) -> bool {
    match handler_return(methods) {
        None => r == Err::<CoreImpl<K, H>, InferError>(InferError::NoHandler),
        Some(ret) => if output_unknown(config, ret) {
            r == Err::<CoreImpl<K, H>, InferError>(InferError::OutputUnknown)
        } else {
            r matches Ok(c) && core_plan(c, config, ret, entries, item_is_token)
        },
    }
}

/// `<` and the item type's text, followed by `rest` (the remainder of a
/// path through the item's `VprattToken` impl).
fn token_trait_path(config: &ParserConfig, rest: &str) -> (r: String)
    ensures
        r@ == "<"@ + item_text(*config) + rest@,
{
    let mut s = String::from_str("<");
    match &config.item {
        Some(i) => s.append(i.as_str()),
        None => s.append("Self::Item"),
    }
    s.append(rest);
    s
}

/// Decides the generated engine impl for `config`, the routing `table`, the
/// methods of the parser's impl block, and whether the item type carries
/// `#[vpratt::token]`: the names and types (configured ones win, then the
/// token attribute, then the handlers' signatures and the defaults), and
/// the table's routing plan, whose arms route every token as the table does
/// (`plan::lemma_plan_routes_as_table`). Fails when no handler gives the
/// types.
pub fn generate_core<P: VprattCore, H: Copy>(
    config: &ParserConfig,
    table: &Table<P, H>,
    methods: &Vec<MethodSig>,
    item_is_token: bool,
) -> (r: Result<CoreImpl<P::PrattToken, H>, InferError>)
    ensures
        generated(r, *config, methods@, table@, item_is_token),
{
    let h = match first_handler(methods) {
        Some(h) => h,
        None => {
            return Err(InferError::NoHandler);
        },
    };
    let ret = match &methods[h].output {
        Some(ret) => ret,
        None => {
            return Err(InferError::NoHandler);
        },
    };
    let (inferred_output, custom) = match infer_types_from_handlers(methods) {
        Ok(types) => types,
        Err(e) => {
            return Err(e);
        },
    };
    let result_type = is_result(ret);
    if config.output.is_none() && result_type && custom.is_none() {
        return Err(InferError::OutputUnknown);
    }
    let item = match &config.item {
        Some(i) => i.clone(),
        None => String::from_str("<std::iter::Peekable<I> as std::iter::Iterator>::Item"),
    };
    let entry = match &config.entry {
        Some(e) => e.clone(),
        None => String::from_str("pratt_parse"),
    };
    let token = match &config.token {
        Some(t) => t.clone(),
        None => if item_is_token {
            let t = token_trait_path(config, " as ::vpratt::VprattToken>::PrattToken");
            proof {
                assert(t@ == "<"@ + item_text(*config) + " as ::vpratt::VprattToken>::PrattToken"@);
            }
            t
        } else {
            String::from_str("Self::Item")
        },
    };
    let extract = match &config.extract {
        Some(x) => x.clone(),
        None => if item_is_token {
            let x = token_trait_path(config, " as ::vpratt::VprattToken>::extract");
            proof {
                assert(x@ == "<"@ + item_text(*config) + " as ::vpratt::VprattToken>::extract"@);
            }
            x
        } else {
            String::from_str("|t| t.clone()")
        },
    };
    let output = match &config.output {
        Some(o) => o.clone(),
        None => inferred_output,
    };
    let wrap_in_ok = !result_type;
    let error = match &config.error {
        Some(e) => ErrorChoice::Custom(e.clone()),
        None => match custom {
            Some(e) => ErrorChoice::Custom(e),
            None => ErrorChoice::Engine,
        },
    };
    let (nud_arms, led_arms, lbp_arms) = plan_of(table);
    Ok(CoreImpl { entry, item, token, extract, output, error, wrap_in_ok, nud_arms, led_arms, lbp_arms })
}

/// Why a parser cannot be generated, by stage.
#[derive(Debug, PartialEq)]
pub enum ParserError<K> {
    /// The attribute's arguments are refused.
    Config(ConfigError),
    /// The table is refused.
    Table(TableError<K>),
    /// The handler types cannot be inferred.
    Infer(InferError),
}

/// Generates a parser: reads the attribute's arguments, checks the table,
/// then decides the shape of the engine impl from the configuration and the
/// handlers. The first stage that fails gives the error.
pub fn parser<P: VprattCore, H: Copy>(
    args: &Vec<ConfigArg>,
    table: &Table<P, H>,
    methods: &Vec<MethodSig>,
    item_is_token: bool,
) -> (r: Result<CoreImpl<P::PrattToken, H>, ParserError<P::PrattToken>>)
    ensures
        match config_of(args@) {
            Err(e) => r == Err::<CoreImpl<P::PrattToken, H>, ParserError<P::PrattToken>>(ParserError::Config(e)),
            Ok(config) => match check_upto::<P, H>(table@, table@.len() as int) {
                Err(e) => r == Err::<CoreImpl<P::PrattToken, H>, ParserError<P::PrattToken>>(ParserError::Table(e)),
                Ok(_) => match r {
                    Ok(c) => generated(Ok::<CoreImpl<P::PrattToken, H>, InferError>(c), config, methods@, table@, item_is_token),
                    Err(ParserError::Infer(e)) => generated(Err::<CoreImpl<P::PrattToken, H>, InferError>(e), config, methods@, table@, item_is_token),
                    Err(_) => false,
                },
            },
        },
{
    let config = match ParserConfig::parse(args) {
        Ok(c) => c,
        Err(e) => {
            return Err(ParserError::Config(e));
        },
    };
    match validate(table) {
        Ok(_) => {},
        Err(e) => {
            return Err(ParserError::Table(e));
        },
    }
    match generate_core(&config, table, methods, item_is_token) {
        Ok(c) => Ok(c),
        Err(e) => Err(ParserError::Infer(e)),
    }
}

} // verus!
