use crate::request::{HttpMethod, HttpRequest};
use crate::response::{
    default_draft, finished, DraftResponse, HttpResponse, HttpResponseBuilder, HttpResponseView,
};
use crate::shared::{
    distinct_names, lemma_position_is, lemma_position_of, lookup, position_of, text_of_option,
    with_entry, TextMap,
};
use crate::text::{
    after_first, before_first, chars_of, find_from, lemma_index_from, lemma_index_of_tail,
};
use regex::Regex;
use vstd::prelude::*;
use vstd::string::{StrSliceExecFns, StringExecFns};

verus! {

/// `regex::Regex`, a compiled regular expression.
#[verifier::external_type_specification]
#[verifier::external_body]
pub struct ExRegex(regex::Regex);

/// `regex::Error`, the reason why a pattern was refused.
#[verifier::external_type_specification]
#[verifier::external_body]
pub struct ExRegexError(regex::Error);

/// What a compiled regular expression was made from: the pattern text,
/// taken together with the options that it was compiled under. For an
/// expression that `compile_pattern` made these are the default options,
/// and the text is the one that was handed to it.
pub uninterp spec fn pattern_of(re: Regex) -> Seq<char>;

/// Whether the regular-expression compiler accepts `pattern`.
pub uninterp spec fn regex_accepts(pattern: Seq<char>) -> bool;

/// Whether the regular expression `pattern` matches somewhere in `haystack`.
pub uninterp spec fn regex_is_match(pattern: Seq<char>, haystack: Seq<char>) -> bool;

/// The names of the capture groups of `pattern`, by group number; group 0
/// and every unnamed group has none.
pub uninterp spec fn regex_group_names(pattern: Seq<char>) -> Seq<Option<Seq<char>>>;

/// The text that each capture group of `pattern` matched in the first match
/// in `haystack`, by group number, or `None` if there is no match. A group
/// that took no part in the match has no text.
pub uninterp spec fn regex_groups(pattern: Seq<char>, haystack: Seq<char>) -> Option<
    Seq<Option<Seq<char>>>,
>;

/// The texts of a sequence of optional strings.
pub open spec fn texts(v: Seq<Option<String>>) -> Seq<Option<Seq<char>>> {
    v.map_values(|s: Option<String>| text_of_option(s))
}

/// Whether `c` has a meaning of its own in a pattern.
pub open spec fn is_meta(c: char) -> bool {
    c == '\\' || c == '.' || c == '+' || c == '*' || c == '?' || c == '(' || c == ')' || c == '|'
        || c == '[' || c == ']' || c == '{' || c == '}' || c == '^' || c == '$' || c == '#'
        || c == '&' || c == '-' || c == '~'
}

/// `text` with a backslash before each character that has a meaning of its
/// own in a pattern: the pattern text that matches `text` and nothing else.
pub open spec fn escaped_literal(text: Seq<char>) -> Seq<char>
    decreases text.len(),
{
    if text.len() == 0 {
        Seq::empty()
    } else if is_meta(text.last()) {
        escaped_literal(text.drop_last()).push('\\').push(text.last())
    } else {
        escaped_literal(text.drop_last()).push(text.last())
    }
}

/// `regex::escape`: the text, character by character, with a backslash
/// before each of the eighteen characters that `is_meta` lists.
#[verifier::external_body]
fn escape_literal(segment: &str) -> (r: String)
    ensures
        r@ == escaped_literal(segment@),
{
    regex::escape(segment)
}

/// `Regex::from_str`: whether a pattern compiles depends on the pattern
/// alone, and the compiled expression keeps the pattern it was made from.
#[verifier::external_body]
fn compile_pattern(pattern: &str) -> (r: Result<Regex, regex::Error>)
    ensures
        r.is_ok() == regex_accepts(pattern@),
        r matches Ok(re) ==> pattern_of(re) == pattern@,
{
    <Regex as std::str::FromStr>::from_str(pattern)
}

/// `Regex::is_match`: whether there is a match depends on the pattern and
/// the haystack alone.
pub assume_specification[ regex::Regex::is_match ](re: &Regex, haystack: &str) -> (b: bool)
    ensures
        b == regex_is_match(pattern_of(*re), haystack@),
;

/// `Clone::clone` on a `Regex`: the copy was made from the same pattern.
pub assume_specification[ <regex::Regex as Clone>::clone ](re: &Regex) -> (copy: Regex)
    ensures
        pattern_of(copy) == pattern_of(*re),
;

/// `Regex::capture_names`: the names of the groups, in group order, each
/// copied into a `String`. They depend on the pattern alone. There is
/// always group 0, which stands for the whole match and has no name.
#[verifier::external_body]
fn group_names(re: &Regex) -> (names: Vec<Option<String>>)
    ensures
        texts(names@) == regex_group_names(pattern_of(*re)),
        names@.len() > 0,
        names@[0].is_none(),
{
    re.capture_names().map(|name| name.map(|n| n.to_string())).collect()
}

/// `Regex::captures`: the first match in `target`, as the text of each
/// group in group order, each copied into a `String`. It depends on the
/// pattern and the target alone. There is a match exactly where
/// `Regex::is_match` finds one; it has as many groups as the pattern has
/// names, and group 0, the whole match, always took part.
#[verifier::external_body]
fn groups_in(re: &Regex, target: &str) -> (groups: Option<Vec<Option<String>>>)
    ensures
        match groups {
            Some(g) => regex_groups(pattern_of(*re), target@) == Some(texts(g@)),
            None => regex_groups(pattern_of(*re), target@).is_none(),
        },
        groups.is_some() == regex_is_match(pattern_of(*re), target@),
        groups matches Some(g) ==> g@.len() == regex_group_names(pattern_of(*re)).len()
            && g@.len() > 0 && g@[0].is_some(),
{
    re.captures(target).map(|c| c.iter().map(|g| g.map(|m| m.as_str().to_string())).collect())
}

/// What a handler reports in place of a response: a status code and an
/// optional message.
#[derive(Debug)]
pub struct HttpError {
    status_code: usize,
    status_message: Option<String>,
}

/// A handler error, as plain values.
pub struct HttpErrorView {
    pub status_code: usize,
    pub status_message: Option<Seq<char>>,
}

impl View for HttpError {
    type V = HttpErrorView;

    closed spec fn view(&self) -> HttpErrorView {
        HttpErrorView {
            status_code: self.status_code,
            status_message: text_of_option(self.status_message),
        }
    }
}

/// The text of an optional string slice.
pub open spec fn text_of_option_str(s: Option<&str>) -> Option<Seq<char>> {
    match s {
        Some(s) => Some(s@),
        None => None,
    }
}

impl HttpError {
    /// An error with this status code and message.
    pub fn new(status_code: usize, status_message: Option<&str>) -> (e: Self)
        ensures
            e@ == (HttpErrorView {
                status_code,
                status_message: text_of_option_str(status_message),
            }),
    {
        let status_message = match status_message {
            Some(m) => Some(String::from_str(m)),
            None => None,
        };
        HttpError { status_code, status_message }
    }

    /// The status code.
    pub fn status_code(&self) -> (code: usize)
        ensures
            code == self@.status_code,
    {
        self.status_code
    }

    /// The message, if there is one.
    pub fn status_message(&self) -> (message: Option<String>)
        ensures
            text_of_option(message) == self@.status_message,
    {
        self.status_message.clone()
    }
}

/// The parameters that a route hands to its handler, by name.
pub type HttpRequestParams = TextMap;

/// The pattern text for one segment of a template: a segment that begins
/// with `:` becomes a group of that name which takes one or more
/// characters that are not white space; any other segment is a literal,
/// escaped so that it matches itself and nothing else.
pub open spec fn segment_pattern(segment: Seq<char>) -> Seq<char> {
    if segment.len() > 0 && segment[0] == ':' {
        "(?<"@ + segment.subrange(1, segment.len() as int) + ">\\S+)"@
    } else {
        escaped_literal(segment)
    }
}

/// The pattern text for the segments of `rest`, the part of a template
/// after a `/`: each segment is preceded by an escaped `/`.
pub open spec fn segments_pattern(rest: Seq<char>) -> Seq<char>
    decreases rest.len(),
{
    let here = "\\/"@ + segment_pattern(before_first(rest, '/'));
    match after_first(rest, '/') {
        Some(more) => {
            proof {
                lemma_index_from(rest, '/', 0);
            }
            here + segments_pattern(more)
        },
        None => here,
    }
}

/// A template is valid if it begins with `/`.
pub open spec fn valid_template(template: Seq<char>) -> bool {
    template.len() > 0 && template[0] == '/'
}

/// The pattern text that a template is compiled to: anchored at both ends,
/// segment by segment.
pub open spec fn route_pattern(template: Seq<char>) -> Seq<char> {
    "^"@ + segments_pattern(template.subrange(1, template.len() as int)) + "$"@
}

/// The parameters that the first `n` groups give: each group that has a
/// name and took part in the match binds its name to its text, a later
/// group of the same name replacing an earlier one.
pub open spec fn collected(
    names: Seq<Option<Seq<char>>>,
    groups: Seq<Option<Seq<char>>>,
    n: int,
) -> Seq<(Seq<char>, Seq<char>)>
    decreases n,
{
    if n <= 0 {
        Seq::empty()
    } else {
        let before = collected(names, groups, n - 1);
        match (names[n - 1], groups[n - 1]) {
            (Some(name), Some(value)) => with_entry(before, name, value),
            _ => before,
        }
    }
}

/// The smaller of two lengths.
pub open spec fn shorter(a: nat, b: nat) -> int {
    if a <= b {
        a as int
    } else {
        b as int
    }
}

/// The parameters that a target gives under a pattern: those of the groups
/// of its first match, and none if it does not match.
pub open spec fn route_params(pattern: Seq<char>, target: Seq<char>) -> Seq<
    (Seq<char>, Seq<char>),
> {
    match regex_groups(pattern, target) {
        Some(groups) => collected(
            regex_group_names(pattern),
            groups,
            shorter(regex_group_names(pattern).len(), groups.len()),
        ),
        None => Seq::empty(),
    }
}

/// The number of named groups among the first `n`.
pub open spec fn named_count(names: Seq<Option<Seq<char>>>, n: int) -> nat
    decreases n,
{
    if n <= 0 {
        0
    } else if names[n - 1].is_some() {
        named_count(names, n - 1) + 1
    } else {
        named_count(names, n - 1)
    }
}

/// Whether one of the first `n` groups is named `name`.
pub open spec fn names_hold(names: Seq<Option<Seq<char>>>, n: int, name: Seq<char>) -> bool {
    exists|i: int| 0 <= i < n && #[trigger] names[i] == Some(name)
}

/// Where no name occurs twice among the first `n` groups and every named
/// group among them took part in the match, the parameters are one per
/// named group, under distinct names, and each name is bound to the text
/// that its group matched.
pub proof fn lemma_params_of_match(
    names: Seq<Option<Seq<char>>>,
    groups: Seq<Option<Seq<char>>>,
    n: int,
)
    requires
        0 <= n <= names.len(),
        n <= groups.len(),
        forall|i: int| 0 <= i < n && (#[trigger] names[i]).is_some() ==> groups[i].is_some(),
        forall|i: int, j: int|
            0 <= i < j < n && (#[trigger] names[i]).is_some() ==> names[i] != #[trigger] names[j],
    ensures
        collected(names, groups, n).len() == named_count(names, n),
        distinct_names(collected(names, groups, n)),
        forall|k: int|
            0 <= k < collected(names, groups, n).len() ==> names_hold(
                names,
                n,
                #[trigger] collected(names, groups, n)[k].0,
            ),
        forall|i: int|
            0 <= i < n && (#[trigger] names[i]).is_some() ==> lookup(
                collected(names, groups, n),
                names[i].unwrap(),
            ) == groups[i],
    decreases n,
{
    if n > 0 {
        lemma_params_of_match(names, groups, n - 1);
        let before = collected(names, groups, n - 1);
        let after = collected(names, groups, n);
        match names[n - 1] {
            Some(name) => {
                let value = groups[n - 1].unwrap();
                assert(after == with_entry(before, name, value));
                assert forall|k: int| 0 <= k < before.len() implies before[k].0 != name by {
                    assert(names_hold(names, n - 1, before[k].0));
                    let i = choose|i: int| 0 <= i < n - 1 && #[trigger] names[i] == Some(
                        before[k].0,
                    );
                    assert(names[i] != names[n - 1]);
                }
                lemma_position_is(before, name, before.len() as int);
                assert(after == before.push((name, value)));
                assert forall|k: int| 0 <= k < after.len() implies names_hold(
                    names,
                    n,
                    #[trigger] after[k].0,
                ) by {
                    if k < before.len() {
                        assert(names_hold(names, n - 1, before[k].0));
                        let i = choose|i: int| 0 <= i < n - 1 && #[trigger] names[i] == Some(
                            before[k].0,
                        );
                        assert(names[i] == Some(after[k].0));
                    } else {
                        assert(names[n - 1] == Some(after[k].0));
                    }
                }
                assert forall|i: int| 0 <= i < n && (#[trigger] names[i]).is_some() implies lookup(
                    after,
                    names[i].unwrap(),
                ) == groups[i] by {
                    if i < n - 1 {
                        let other = names[i].unwrap();
                        assert(names[i] != names[n - 1]);
                        lemma_position_of(before, other);
                        lemma_position_is(after, other, position_of(before, other));
                    } else {
                        lemma_position_is(after, name, before.len() as int);
                    }
                }
            },
            None => {
                assert forall|k: int| 0 <= k < after.len() implies names_hold(
                    names,
                    n,
                    #[trigger] after[k].0,
                ) by {
                    assert(names_hold(names, n - 1, before[k].0));
                    let i = choose|i: int| 0 <= i < n - 1 && #[trigger] names[i] == Some(
                        before[k].0,
                    );
                    assert(names[i] == Some(after[k].0));
                }
            },
        }
    }
}

/// No two groups share a name.
pub open spec fn names_differ(names: Seq<Option<Seq<char>>>) -> bool {
    forall|i: int, j: int|
        0 <= i < j < names.len() && (#[trigger] names[i]).is_some() ==> names[i]
            != #[trigger] names[j]
}

/// Every group that has a name took part in the match.
pub open spec fn named_groups_matched(
    names: Seq<Option<Seq<char>>>,
    groups: Seq<Option<Seq<char>>>,
) -> bool {
    forall|i: int| 0 <= i < names.len() && (#[trigger] names[i]).is_some() ==> groups[i].is_some()
}

/// The parameters are exactly one per named group, under distinct names,
/// and each is the text that the group of its name matched.
pub open spec fn one_per_named_group(
    names: Seq<Option<Seq<char>>>,
    groups: Seq<Option<Seq<char>>>,
    params: Seq<(Seq<char>, Seq<char>)>,
) -> bool {
    &&& params.len() == named_count(names, names.len() as int)
    &&& distinct_names(params)
    &&& forall|i: int|
        0 <= i < names.len() && (#[trigger] names[i]).is_some() ==> lookup(
            params,
            names[i]->Some_0,
        ) == groups[i]
}

/// What holds of the groups of every pattern and target: there is a match
/// exactly where the pattern matches; a match has as many groups as the
/// pattern has names; and group 0, the whole match, has no name and always
/// took part.
pub open spec fn groups_are_regular(pattern: Seq<char>, target: Seq<char>) -> bool {
    &&& regex_groups(pattern, target).is_some() == regex_is_match(pattern, target)
    &&& regex_groups(pattern, target) matches Some(groups) ==> {
        &&& groups.len() == regex_group_names(pattern).len()
        &&& groups.len() > 0
        &&& groups[0].is_some()
        &&& regex_group_names(pattern)[0].is_none()
    }
}

/// For a pattern and a target that it matches: where the match has as many
/// groups as the pattern has names, no two groups of the pattern share a
/// name and every named group took part in the match, the parameters are
/// exactly one per named group, and each is the text that the group of its
/// name matched in the target.
pub proof fn lemma_matching_target_gives_every_parameter(pattern: Seq<char>, target: Seq<char>)
    requires
        regex_groups(pattern, target).is_some(),
        regex_groups(pattern, target)->Some_0.len() == regex_group_names(pattern).len(),
        names_differ(regex_group_names(pattern)),
        named_groups_matched(regex_group_names(pattern), regex_groups(pattern, target)->Some_0),
    ensures
        one_per_named_group(
            regex_group_names(pattern),
            regex_groups(pattern, target)->Some_0,
            route_params(pattern, target),
        ),
{
    let names = regex_group_names(pattern);
    let groups = regex_groups(pattern, target)->Some_0;
    lemma_params_of_match(names, groups, names.len() as int);
}

/// The text of the pattern for the template `path`.
fn pattern_text(path: &str) -> (pattern: String)
    requires
        valid_template(path@),
    ensures
        pattern@ == route_pattern(path@),
{
    let v = chars_of(path);
    let n = v.len();
    let mut pattern = String::from_str("^");
    let mut lo: usize = 1;
    let mut done = false;
    let ghost goal = "^"@ + segments_pattern(v@.subrange(1, n as int));
    while !done
        invariant
            n == v.len(),
            v@ == path@,
            1 <= lo <= n,
            !done ==> pattern@ + segments_pattern(v@.subrange(lo as int, n as int)) == goal,
            done ==> pattern@ == goal,
        decreases n - lo + (if done { 0int } else { 1int }),
    {
        let ghost rest = v@.subrange(lo as int, n as int);
        let ghost before = pattern@;
        let end = find_from(&v, '/', lo);
        proof {
            lemma_index_of_tail(v@, '/', lo as int);
            assert(before_first(rest, '/') =~= v@.subrange(lo as int, end as int));
            if end < n {
                assert(after_first(rest, '/').unwrap() =~= v@.subrange(end + 1, n as int));
            }
        }
        pattern.append("\\/");
        if end > lo && v[lo] == ':' {
            pattern.append("(?<");
            pattern.append(path.substring_char(lo + 1, end));
            pattern.append(">\\S+)");
            assert(v@.subrange(lo as int, end as int).subrange(1, end - lo) =~= v@.subrange(
                lo + 1,
                end as int,
            ));
        } else {
            let literal = escape_literal(path.substring_char(lo, end));
            pattern.append(literal.as_str());
        }
        assert(pattern@ =~= before + ("\\/"@ + segment_pattern(before_first(rest, '/'))));
        proof {
            if end < n {
                let more = v@.subrange(end + 1, n as int);
                assert(pattern@ + segments_pattern(more) =~= before + segments_pattern(rest));
            } else {
                assert(pattern@ =~= before + segments_pattern(rest));
            }
        }
        if end < n {
            lo = end + 1;
        } else {
            done = true;
        }
    }
    pattern.append("$");
    pattern
}

/// One route: a method, the compiled pattern of a path template, and the
/// handler bound to them.
#[derive(Clone, Debug)]
pub struct HttpRegexEndpoint<H> {
    method: HttpMethod,
    path: Regex,
    handler: H,
}

impl<H> HttpRegexEndpoint<H> {
    /// The method that the route serves.
    pub closed spec fn method(&self) -> HttpMethod {
        self.method
    }

    /// The pattern text that the route's template was compiled to.
    pub closed spec fn pattern(&self) -> Seq<char> {
        pattern_of(self.path)
    }

    /// The handler bound to the route.
    pub closed spec fn handler(&self) -> H {
        self.handler
    }

    /// Whether the route serves a request with this method and target.
    pub open spec fn serves(&self, method: HttpMethod, target: Seq<char>) -> bool {
        self.method() == method && regex_is_match(self.pattern(), target)
    }

    /// The compiled pattern of the route.
    pub fn path(&self) -> (re: &Regex)
        ensures
            pattern_of(*re) == self.pattern(),
    {
        &self.path
    }

    /// The route for `method` and the template `path_str`, which must begin
    /// with `/` and give a pattern that the compiler accepts.
    pub fn new(method: HttpMethod, path_str: &str, handler: H) -> (e: Self)
        requires
            valid_template(path_str@),
            regex_accepts(route_pattern(path_str@)),
        ensures
            e.method() == method,
            e.pattern() == route_pattern(path_str@),
            e.handler() == handler,
    {
        let pattern = pattern_text(path_str);
        match compile_pattern(pattern.as_str()) {
            Ok(path) => HttpRegexEndpoint { method, path, handler },
            Err(_) => vstd::pervasive::unreached(),
        }
    }

    /// The route for `method` and the template `path_str`, or `None` where
    /// the template does not begin with `/` or gives a pattern that the
    /// compiler refuses.
    pub fn try_new(method: HttpMethod, path_str: &str, handler: H) -> (r: Option<Self>)
        ensures
            r.is_some() == (valid_template(path_str@) && regex_accepts(route_pattern(path_str@))),
            r matches Some(e) ==> e.method() == method && e.pattern() == route_pattern(
                path_str@,
            ) && e.handler() == handler,
    {
        let v = chars_of(path_str);
        if v.len() == 0 || v[0] != '/' {
            return None;
        }
        let pattern = pattern_text(path_str);
        if compile_pattern(pattern.as_str()).is_ok() {
            Some(Self::new(method, path_str, handler))
        } else {
            None
        }
    }
}

/// The parameters that a sequence of group names and the texts that the
/// groups matched give, as `collected` says, over as many groups as both
/// sequences have.
pub fn collect_params(names: &Vec<Option<String>>, groups: &Vec<Option<String>>) -> (params:
    HttpRequestParams)
    ensures
        params@ == collected(
            texts(names@),
            texts(groups@),
            shorter(names@.len(), groups@.len()),
        ),
{
    let count = if names.len() <= groups.len() {
        names.len()
    } else {
        groups.len()
    };
    let mut params = TextMap::new();
    let mut i: usize = 0;
    while i < count
        invariant
            i <= count,
            count <= names.len(),
            count <= groups.len(),
            params@ == collected(texts(names@), texts(groups@), i as int),
        decreases count - i,
    {
        match (&names[i], &groups[i]) {
            (Some(name), Some(value)) => {
                params.insert(name.clone(), value.clone());
            },
            _ => {},
        }
        i += 1;
    }
    params
}

/// The response that stands for a handler error: its status code and
/// message, no headers and no body.
pub open spec fn error_response(e: HttpErrorView) -> HttpResponseView {
    finished(
        DraftResponse {
            status_code: e.status_code,
            status_message: e.status_message,
            ..default_draft()
        },
    )
}

/// The response for a request that no route serves: 404, no body.
pub open spec fn not_found() -> HttpResponseView {
    finished(
        DraftResponse {
            status_code: 404,
            status_message: Some("Not Found"@),
            ..default_draft()
        },
    )
}

/// Whether `response` is what a handler's outcome turns into: the handler's
/// own response, or the response that stands for its error.
pub open spec fn settled(outcome: Result<HttpResponse, HttpError>, response: HttpResponse) -> bool {
    match outcome {
        Ok(r) => response == r,
        Err(e) => response@ == error_response(e@),
    }
}

/// Turns a handler's outcome into the response to send.
pub fn settle(outcome: Result<HttpResponse, HttpError>) -> (response: HttpResponse)
    ensures
        settled(outcome, response),
{
    match outcome {
        Ok(response) => response,
        Err(e) => {
            let builder = HttpResponseBuilder::default();
            let builder = match &e.status_message {
                Some(m) => builder.status(e.status_code, Some(m.as_str())),
                None => builder.status(e.status_code, None),
            };
            builder.build()
        },
    }
}

/// The index of the first route at or after `from` that serves the method
/// and target, or the number of routes if none does.
pub open spec fn first_serving<H>(
    endpoints: Seq<HttpRegexEndpoint<H>>,
    method: HttpMethod,
    target: Seq<char>,
    from: int,
) -> int
    decreases endpoints.len() - from,
{
    if from < 0 || from >= endpoints.len() {
        endpoints.len() as int
    } else if endpoints[from].serves(method, target) {
        from
    } else {
        first_serving(endpoints, method, target, from + 1)
    }
}

/// Whether `response` is what the route's handler makes of the request:
/// the handler was called with the request and the parameters that the
/// target gives under the route's pattern, and its outcome was settled.
pub open spec fn handled_by<H: Fn(HttpRequest, HttpRequestParams) -> Result<HttpResponse, HttpError>>(
    endpoint: HttpRegexEndpoint<H>,
    req: HttpRequest,
    response: HttpResponse,
) -> bool {
    exists|params: HttpRequestParams, outcome: Result<HttpResponse, HttpError>|
        params@ == route_params(endpoint.pattern(), req.target@) && #[trigger] call_ensures(
            endpoint.handler(),
            (req, params),
            outcome,
        ) && settled(outcome, response)
}

/// A routing table: routes in the order in which they were declared, which
/// is their only order of precedence.
#[derive(Clone, Debug)]
pub struct RegexRouter<H> {
    pub endpoints: Vec<HttpRegexEndpoint<H>>,
}

impl<H> RegexRouter<H> {
    /// The parameters that `target` gives under the compiled pattern `path`:
    /// none where it does not match. Where it matches, no two groups share
    /// a name and every named group took part, they are exactly one per
    /// named group, each the text that its group matched.
    pub fn extract_params(&self, path: &Regex, target: &String) -> (params: HttpRequestParams)
        ensures
            params@ == route_params(pattern_of(*path), target@),
            groups_are_regular(pattern_of(*path), target@),
            regex_groups(pattern_of(*path), target@) matches Some(groups) ==> (names_differ(
                regex_group_names(pattern_of(*path)),
            ) && named_groups_matched(regex_group_names(pattern_of(*path)), groups)
                ==> one_per_named_group(regex_group_names(pattern_of(*path)), groups, params@)),
    {
        match groups_in(path, target.as_str()) {
            Some(groups) => {
                let names = group_names(path);
                proof {
                    if names_differ(texts(names@)) && named_groups_matched(
                        texts(names@),
                        texts(groups@),
                    ) {
                        lemma_matching_target_gives_every_parameter(
                            pattern_of(*path),
                            target@,
                        );
                    }
                }
                collect_params(&names, &groups)
            },
            None => TextMap::new(),
        }
    }
}

/// Something that answers each request with a response.
pub trait HttpRouter {
    /// Whether the router can be asked. A router that does not say leaves
    /// it unspecified.
    open spec fn ready(&self) -> bool {
        arbitrary()
    }

    /// Whether `response` is an answer of the router to `req`. A router
    /// that does not say leaves it unspecified.
    open spec fn answers(&self, req: HttpRequest, response: HttpResponse) -> bool {
        arbitrary()
    }

    /// The router's answer to `req`.
    fn dispatch(&self, req: HttpRequest) -> (response: HttpResponse)
        requires
            self.ready(),
        ensures
            self.answers(req, response),
    ;
}

impl<H: Fn(HttpRequest, HttpRequestParams) -> Result<HttpResponse, HttpError>> HttpRouter for RegexRouter<
    H,
> {
    /// Every handler can be called with every request and every parameter
    /// mapping.
    open spec fn ready(&self) -> bool {
        forall|i: int, req: HttpRequest, params: HttpRequestParams|
            0 <= i < self.endpoints@.len() ==> #[trigger] call_requires(
                self.endpoints@[i].handler(),
                (req, params),
            )
    }

    /// The first route, in declaration order, whose method is the request's
    /// and whose pattern matches the target handles the request; where
    /// there is none, the answer is 404 with no body.
    open spec fn answers(&self, req: HttpRequest, response: HttpResponse) -> bool {
        let i = first_serving(self.endpoints@, req.method, req.target@, 0);
        if i < self.endpoints@.len() {
            handled_by(self.endpoints@[i], req, response)
        } else {
            response@ == not_found()
        }
    }

    fn dispatch(&self, req: HttpRequest) -> (response: HttpResponse) {
        let count = self.endpoints.len();
        let mut i: usize = 0;
        while i < count
            invariant
                i <= count,
                count == self.endpoints@.len(),
                self.ready(),
                first_serving(self.endpoints@, req.method, req.target@, 0) == first_serving(
                    self.endpoints@,
                    req.method,
                    req.target@,
                    i as int,
                ),
            decreases count - i,
        {
            let endpoint = &self.endpoints[i];
            if endpoint.method == req.method && endpoint.path.is_match(req.target.as_str()) {
                let params = self.extract_params(&endpoint.path, &req.target);
                let ghost asked = req;
                let ghost given = params;
                assert(call_requires(self.endpoints@[i as int].handler(), (req, params)));
                let outcome = (endpoint.handler)(req, params);
                let ghost reported = outcome;
                let response = settle(outcome);
                assert(call_ensures(
                    self.endpoints@[i as int].handler(),
                    (asked, given),
                    reported,
                ));
                assert(handled_by(self.endpoints@[i as int], asked, response));
                return response;
            }
            i += 1;
        }
        HttpResponseBuilder::default().status(404, Some("Not Found")).build()
    }
}

} // verus!
