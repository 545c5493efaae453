//! Release-announcement mails: the data that fills a template, and the
//! template rendering.
//!
//! The data is a key-to-text map.  It is held as a vector of pairs in
//! insertion order, of which a later pair for a key supersedes an
//! earlier one; its meaning is the map [`map_of`] builds.

use vstd::prelude::*;
use vstd::string::StringExecFns;
use crate::text::join_seqs;
use crate::text::join_strings;

verus! {

/// A pair vector read as a map: later pairs win.
pub open spec fn map_of(s: Seq<(String, String)>) -> Map<Seq<char>, Seq<char>>
    decreases s.len(),
{
    if s.len() == 0 {
        Map::empty()
    } else {
        map_of(s.drop_last()).insert(s.last().0@, s.last().1@)
    }
}

/// A map folded over a pair vector: the pairs inserted in order.
pub open spec fn insert_all(
    m: Map<Seq<char>, Seq<char>>,
    s: Seq<(String, String)>,
) -> Map<Seq<char>, Seq<char>>
    decreases s.len(),
{
    if s.len() == 0 {
        m
    } else {
        insert_all(m, s.drop_last()).insert(s.last().0@, s.last().1@)
    }
}

/// Information about a release, as the announcement template needs it.
#[derive(Debug)]
pub struct ReleaseInfo {
    pub project: String,
    pub url: String,
    pub version: String,
    pub changelog: String,
}

/// Collects the data that fills a mail template.
#[derive(Debug)]
pub struct MailDataBuilder {
    data: Vec<(String, String)>,
}

impl View for MailDataBuilder {
    type V = Map<Seq<char>, Seq<char>>;

    closed spec fn view(&self) -> Map<Seq<char>, Seq<char>> {
        map_of(self.data@)
    }
}

impl MailDataBuilder {
    /// Create a builder; the announcement prefix is preset.
    pub fn new() -> (r: Self)
        ensures
            r@ == Map::<Seq<char>, Seq<char>>::empty().insert("prefix"@, "ANNOUNCE"@),
    {
        let mut data: Vec<(String, String)> = Vec::new();
        data.push((String::from_str("prefix"), String::from_str("ANNOUNCE")));
        proof {
            assert(data@.drop_last() =~= Seq::<(String, String)>::empty());
            assert(map_of(data@.drop_last()) =~= Map::<Seq<char>, Seq<char>>::empty());
            assert(data@.last().0@ == "prefix"@);
            assert(data@.last().1@ == "ANNOUNCE"@);
            assert(map_of(data@) == map_of(data@.drop_last()).insert(
                data@.last().0@,
                data@.last().1@,
            ));
        }
        MailDataBuilder { data }
    }

    /// Record one key and its text.
    fn put(&mut self, key: &str, value: String)
        ensures
            final (self)@ == old(self)@.insert(key@, value@),
    {
        let ghost pre = self.data@;
        self.data.push((key.to_owned(), value));
        proof {
            assert(self.data@.drop_last() =~= pre);
        }
    }

    /// Set the emitter address.
    pub fn emitter(&mut self, emitter: &str)
        ensures
            final (self)@ == old(self)@.insert("emitter"@, emitter@),
    {
        self.put("emitter", emitter.to_owned());
    }

    /// Set the recipients, joined with commas.
    pub fn recipients(&mut self, recipients: &Vec<String>)
        ensures
            final (self)@ == old(self)@.insert(
                "recipients"@,
                join_seqs(recipients.deep_view(), ", "@),
            ),
    {
        let joined = join_strings(recipients, ", ");
        self.put("recipients", joined);
    }

    /// Record a release: project, url, version, and the changelog body
    /// fenced as the what's-new text.
    pub fn info(&mut self, info: &ReleaseInfo)
        ensures
            final (self)@ == old(self)@.insert("project"@, info.project@).insert(
                "url"@,
                info.url@,
            ).insert("version"@, info.version@).insert(
                "text"@,
                "What's new?\n\n```\n"@ + info.changelog@ + "```"@,
            ),
    {
        self.put("project", info.project.clone());
        self.put("url", info.url.clone());
        self.put("version", info.version.clone());
        let mut text = String::from_str("What's new?\n\n```\n");
        text.append(info.changelog.as_str());
        text.append("```");
        self.put("text", text);
    }

    /// Set the signature text.
    pub fn signature(&mut self, text: &str)
        ensures
            final (self)@ == old(self)@.insert("signature"@, text@),
    {
        self.put("signature", text.to_owned());
    }

    /// Record extra pairs, in their order.
    pub fn extra(&mut self, data: &Vec<(String, String)>)
        ensures
            final (self)@ == insert_all(old(self)@, data@),
    {
        let ghost m0 = self@;
        let mut i: usize = 0;
        while i < data.len()
            invariant
                0 <= i <= data.len(),
                self@ == insert_all(m0, data@.take(i as int)),
            decreases data.len() - i,
        {
            proof {
                assert(data@.take(i + 1).drop_last() =~= data@.take(i as int));
                assert(data@.take(i + 1).last() == data@[i as int]);
            }
            let pair = &data[i];
            self.put(pair.0.as_str(), pair.1.clone());
            i += 1;
        }
        proof {
            assert(data@.take(data@.len() as int) =~= data@);
        }
    }

    /// Consume the builder and hand the recorded pairs out.
    pub fn build(self) -> (r: Vec<(String, String)>)
        ensures
            map_of(r@) == self@,
    {
        self.data
    }
}

/// The mail template that is used when none is given.
pub open spec fn default_template() -> Seq<char> {
    "From: {{emitter}}\nTo: {{recipients}}\nSubject: [{{prefix}}] {{project}} {{version}} is available\nbcc: {{emitter}}\n\nHi!\n\nVersion {{version}} of {{project}} is available in its repository [1].\n\n[1] {{url}}\n\n{{text}}\n\nRegards,\n\n{{signature}}\n"@
}

/// What rendering a template over a data map yields, or that it fails:
/// a function of the template and the map alone.
pub uninterp spec fn render_of(template: Seq<char>, data: Map<Seq<char>, Seq<char>>) -> Option<
    Seq<char>,
>;

/// Relies on `handlebars::Handlebars`: `register_escape_fn` with
/// `handlebars::no_escape`, `register_template_string` and `render`.
/// The data goes in as a `BTreeMap`, so the outcome is a function of
/// the template and the map alone, here named [`render_of`]; a
/// template or rendering failure is the `None` case.
#[verifier::external_body]
fn render_template(template: &str, data: &Vec<(String, String)>) -> (r: Option<String>)
    ensures
        match r {
            Some(t) => render_of(template@, map_of(data@)) == Some(t@),
            None => render_of(template@, map_of(data@)) is None,
        },
{
    let mut map = std::collections::BTreeMap::new();
    for (k, v) in data.iter() {
        map.insert(k.clone(), v.clone());
    }
    let mut handlebars = handlebars::Handlebars::new();
    handlebars.register_escape_fn(handlebars::no_escape);
    if handlebars.register_template_string("t", template).is_err() {
        return None;
    }
    handlebars.render("t", &map).ok()
}

/// Rendering failed: the template cannot be compiled or rendered over
/// the given data.
#[derive(Debug, Clone, Copy, PartialEq, Eq, Structural)]
pub enum MailError {
    Render,
}

/// Builds a mail from a template and data.
#[derive(Debug)]
pub struct MailBuilder {
    pub template: Option<String>,
}

/// The template a builder renders: its own, or the default.
pub open spec fn template_of(b: MailBuilder) -> Seq<char> {
    match b.template {
        Some(t) => t@,
        None => default_template(),
    }
}

impl MailBuilder {
    /// Create a builder that renders the default template.
    pub fn new() -> (r: Self)
        ensures
            r.template is None,
    {
        MailBuilder { template: None }
    }

    /// Use the given template instead of the default.
    pub fn template(&mut self, template: &str)
        ensures
            final (self).template matches Some(t) && t@ == template@,
    {
        self.template = Some(template.to_owned());
    }

    /// Render the template over the data.
    pub fn build(self, data: &Vec<(String, String)>) -> (r: Result<String, MailError>)
        ensures
            match render_of(template_of(self), map_of(data@)) {
                Some(t) => (r matches Ok(s) && s@ == t),
                None => r == Result::<String, MailError>::Err(MailError::Render),
            },
    {
        let rendered = match &self.template {
            Some(t) => render_template(t.as_str(), data),
            None => render_template(
                "From: {{emitter}}\nTo: {{recipients}}\nSubject: [{{prefix}}] {{project}} {{version}} is available\nbcc: {{emitter}}\n\nHi!\n\nVersion {{version}} of {{project}} is available in its repository [1].\n\n[1] {{url}}\n\n{{text}}\n\nRegards,\n\n{{signature}}\n",
                data,
            ),
        };
        match rendered {
            Some(t) => Ok(t),
            None => Err(MailError::Render),
        }
    }
}

} // verus!
