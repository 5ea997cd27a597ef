//! Input records a plugin hands back to the host runtime, the request
//! builder, and the helper that names a value's type.

use vstd::prelude::*;
use std::collections::HashMap;

verus! {

/// Input describing one request the host should make on the plugin's
/// behalf.
#[derive(Debug, Clone)]
pub struct RequestInput<B> {
    pub domain: String,
    pub endpoint: String,
    pub method: String,
    pub parameters: Vec<(String, String)>,
    pub headers: HashMap<String, String>,
    pub body: Option<B>,
    pub response_type: String,
}

/// Error of the request builder; building never fails, the type only keeps
/// the builder's fallible signature.
#[derive(Debug, Clone, Copy, PartialEq, Eq, Structural)]
pub struct BuilderError;

/// Step-by-step construction of a [`RequestInput`].  The fields are
/// public so that the builder's contracts can speak about them; callers
/// are expected to go through the methods.
pub struct RequestBuilder<B> {
    pub domain: String,
    pub endpoint: String,
    pub method: String,
    pub parameters: Vec<(String, String)>,
    pub headers: HashMap<String, String>,
    pub body: Option<B>,
    pub response_type: String,
}

impl<B> RequestBuilder<B> {
    /// A builder for a request to `domain` at `path`, with no parameters,
    /// no headers and no body yet.
    pub fn new(domain: String, path: String, method: String, response_type: String) -> (r:
        Self)
        ensures
            r.domain == domain,
            r.endpoint == path,
            r.method == method,
            r.parameters@.len() == 0,
            r.headers@ == Map::<String, String>::empty(),
            r.body is None,
            r.response_type == response_type,
    {
        Self {
            domain,
            endpoint: path,
            method,
            parameters: Vec::new(),
            headers: HashMap::new(),
            body: None,
            response_type,
        }
    }

    /// Replaces the request's headers.
    pub fn add_headers(self, headers: HashMap<String, String>) -> (r: Self)
        ensures
            r.headers == headers,
            r.domain == self.domain,
            r.endpoint == self.endpoint,
            r.method == self.method,
            r.parameters == self.parameters,
            r.body == self.body,
            r.response_type == self.response_type,
    {
        Self { headers, ..self }
    }

    /// Replaces the request's query parameters.
    pub fn add_parameters(self, query_parameters: Vec<(String, String)>) -> (r: Self)
        ensures
            r.parameters == query_parameters,
            r.domain == self.domain,
            r.endpoint == self.endpoint,
            r.method == self.method,
            r.headers == self.headers,
            r.body == self.body,
            r.response_type == self.response_type,
    {
        Self { parameters: query_parameters, ..self }
    }

    /// Sets the request's body; always succeeds.
    pub fn add_body(self, body: B) -> (r: Result<Self, BuilderError>)
        ensures
            r matches Ok(b) && b.body == Some(body) && b.domain == self.domain && b.endpoint
                == self.endpoint && b.method == self.method && b.parameters == self.parameters
                && b.headers == self.headers && b.response_type == self.response_type,
    {
        Ok(Self { body: Some(body), ..self })
    }

    /// The finished request input, carrying every field as set.
    pub fn build(self) -> (r: RequestInput<B>)
        ensures
            r.domain == self.domain,
            r.endpoint == self.endpoint,
            r.method == self.method,
            r.parameters == self.parameters,
            r.headers == self.headers,
            r.body == self.body,
            r.response_type == self.response_type,
    {
        RequestInput {
            domain: self.domain,
            endpoint: self.endpoint,
            method: self.method,
            parameters: self.parameters,
            body: self.body,
            headers: self.headers,
            response_type: self.response_type,
        }
    }
}

/// Input describing one resource to select or create.
#[derive(Debug, Clone)]
pub struct ResourceInput<R> {
    pub name: Option<String>,
    pub resource_type: String,
    pub source_key: String,
    pub unit: String,
    pub resource: Option<R>,
    pub data_type: Option<String>,
}

impl<R> ResourceInput<R> {
    /// A resource input carrying exactly the given fields.
    pub fn new(
        name: Option<String>,
        resource_type: String,
        source_key: String,
        unit: String,
        resource: Option<R>,
        data_type: Option<String>,
    ) -> (r: Self)
        ensures
            r.name == name,
            r.resource_type == resource_type,
            r.source_key == source_key,
            r.unit == unit,
            r.resource == resource,
            r.data_type == data_type,
    {
        Self { name, resource_type, source_key, unit, resource, data_type }
    }
}

/// Input describing one tag to select or create.
#[derive(Debug, Clone)]
pub struct TagInput<T> {
    pub tag_type: String,
    pub source_key: String,
    pub name: Option<String>,
    pub tag: Option<T>,
    pub data_type: Option<String>,
}

impl<T> TagInput<T> {
    /// A tag input carrying exactly the given fields.
    pub fn new(
        tag_type: String,
        source_key: String,
        name: Option<String>,
        tag: Option<T>,
        data_type: Option<String>,
    ) -> (r: Self)
        ensures
            r.tag_type == tag_type,
            r.source_key == source_key,
            r.name == name,
            r.tag == tag,
            r.data_type == data_type,
    {
        Self { tag_type, source_key, name, tag, data_type }
    }
}

/// The payload the host hands to a command handler.
#[derive(Debug)]
pub struct HandlerInput<C> {
    pub command_type: String,
    pub command: C,
}

/// Start index of the final `::`-separated segment of `s`, scanning from
/// `i` with `seg` the start of the segment found so far.
pub open spec fn last_segment_start(s: Seq<char>, i: int, seg: int) -> int
    decreases s.len() - i,
{
    if i + 1 >= s.len() {
        seg
    } else if s[i] == ':' && s[i + 1] == ':' {
        last_segment_start(s, i + 2, i + 2)
    } else {
        last_segment_start(s, i + 1, seg)
    }
}

/// The final `::`-segment of a type path, with every `>` removed: the bare
/// name of the rightmost type in the path.
pub open spec fn type_short_name(s: Seq<char>) -> Seq<char> {
    s.skip(last_segment_start(s, 0, 0)).filter(|c: char| c != '>')
}

/// Relies on `str::replace` with an empty replacement: every `>` is
/// removed and all other characters stay, in order.
#[verifier::external_body]
fn strip_gt(s: &str) -> (r: String)
    ensures
        r@ == s@.filter(|c: char| c != '>'),
{
    s.replace(">", "")
}

/// The bare type name at the end of a `::`-separated type path, with
/// generic brackets dropped.
pub fn short_type_name(full: &str) -> (r: String)
    ensures
        r@ == type_short_name(full@),
{
    let n = full.unicode_len();
    let mut i: usize = 0;
    let mut seg: usize = 0;
    while n > 0 && i < n - 1
        invariant
            n == full@.len(),
            seg <= i,
            i <= n,
            last_segment_start(full@, 0, 0) == last_segment_start(full@, i as int, seg as int),
        decreases n - i,
    {
        if full.get_char(i) == ':' && full.get_char(i + 1) == ':' {
            i = i + 2;
            seg = i;
        } else {
            i = i + 1;
        }
    }
    let tail = full.substring_char(seg, n);
    proof {
        assert(tail@ =~= full@.skip(seg as int));
    }
    strip_gt(tail)
}

} // verus!
