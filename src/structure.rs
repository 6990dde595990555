//! The configuration model: selectors, resources and configs.
use vstd::prelude::*;
use crate::text::{contains_seq, contains_str, decimal, decimal_string, replace_all, replace_str};

verus! {

/// The token in a resource's URL that a parameter replaces.
pub const URL_PARAM_PLACEHOLDER: &'static str = "%%";

/// The characters of the placeholder token.
pub open spec fn placeholder() -> Seq<char> {
    seq!['%', '%']
}

proof fn lemma_placeholder_view()
    ensures
        URL_PARAM_PLACEHOLDER@ == placeholder(),
{
    reveal_strlit("%%");
    assert(URL_PARAM_PLACEHOLDER@ =~= placeholder());
}

/// Looks up the position of an element in a list by equality of its fields.
pub trait Position<T> {
    /// The element at index `i` of the list equals `element`.
    spec fn holds_at(&self, element: T, i: int) -> bool;

    /// The index of the first element equal to `element`, which must be present.
    fn position(&self, element: T) -> (r: usize)
        requires
            exists|i: int| self.holds_at(element, i),
        ensures
            self.holds_at(element, r as int),
            forall|j: int| 0 <= j < r ==> !self.holds_at(element, j),
    ;
}

/// The format a config is stored in.
#[derive(Clone, Copy, Debug, PartialEq, Eq, Structural)]
pub enum ConfigFormat {
    Toml,
    Json,
}

/// The type a selector's matched text is given.
#[derive(Clone, Copy, Debug, PartialEq, Eq, Structural)]
pub enum SelectorType {
    String,
    Number,
}

/// The name of a selector type.
pub open spec fn type_label(t: SelectorType) -> Seq<char> {
    match t {
        SelectorType::String => "String"@,
        SelectorType::Number => "Number"@,
    }
}

impl SelectorType {
    /// Every selector type, in declaration order.
    pub fn to_vec() -> (r: Vec<SelectorType>)
        ensures
            r@ == seq![SelectorType::String, SelectorType::Number],
    {
        let r = vec![SelectorType::String, SelectorType::Number];
        assert(r@ =~= seq![SelectorType::String, SelectorType::Number]);
        r
    }

    /// The name of the type.
    pub fn as_str(&self) -> (r: &'static str)
        ensures
            r@ == type_label(*self),
    {
        match self {
            SelectorType::String => "String",
            SelectorType::Number => "Number",
        }
    }
}

/// A named path to a value on a web page.
#[derive(Clone, Debug)]
pub struct Selector {
    pub path: String,
    pub name: String,
    pub parsed_type: SelectorType,
}

/// Two selectors agree in path, name and type.
pub open spec fn same_selector(a: Selector, b: Selector) -> bool {
    a.path@ == b.path@ && a.name@ == b.name@ && a.parsed_type == b.parsed_type
}

impl Selector {
    /// A selector with the given path, name and type.
    pub fn new(path: String, name: String, parsed_type: SelectorType) -> (r: Self)
        ensures
            r.path == path,
            r.name == name,
            r.parsed_type == parsed_type,
    {
        Self { path, name, parsed_type }
    }

    /// Whether the two selectors agree in path, name and type.
    pub fn same_as(&self, other: &Selector) -> (r: bool)
        ensures
            r == same_selector(*self, *other),
    {
        self.path == other.path && self.name == other.name && self.parsed_type == other.parsed_type
    }

    /// The text a selector is shown by: its name.
    pub fn label(&self) -> (r: String)
        ensures
            r@ == self.name@,
    {
        self.name.clone()
    }
}

/// The first index at which `v` holds an element equal to `s`.
fn selector_index(v: &Vec<Selector>, s: &Selector) -> (r: usize)
    requires
        exists|i: int| 0 <= i < v.len() && same_selector(v@[i], *s),
    ensures
        r < v.len(),
        same_selector(v@[r as int], *s),
        forall|j: int| 0 <= j < r ==> !same_selector(v@[j], *s),
{
    let mut i: usize = 0;
    loop
        invariant
            exists|k: int| i <= k < v.len() && same_selector(v@[k], *s),
            forall|j: int| 0 <= j < i ==> !same_selector(v@[j], *s),
        decreases v.len() - i,
    {
        if v[i].same_as(s) {
            return i;
        }
        i = i + 1;
    }
}

impl<'a> Position<&'a Selector> for Vec<Selector> {
    open spec fn holds_at(&self, element: &'a Selector, i: int) -> bool {
        0 <= i < self.len() && same_selector(self@[i], *element)
    }

    fn position(&self, element: &'a Selector) -> (r: usize) {
        selector_index(self, element)
    }
}

impl<'a> std::ops::Index<&'a Selector> for Vec<Selector> {
    type Output = Selector;

    fn index(&self, index: &'a Selector) -> (r: &Selector)
        ensures
            same_selector(*r, *index),
    {
        let i = selector_index(self, index);
        &self[i]
    }
}

impl<'a> vstd::std_specs::core::IndexSpecImpl<&'a Selector> for Vec<Selector> {
    open spec fn index_req(&self, index: &&'a Selector) -> bool {
        exists|i: int| 0 <= i < self.len() && same_selector(self@[i], **index)
    }
}

/// A web page and the selectors to apply to it.
#[derive(Clone, Debug)]
pub struct Resource {
    pub url: String,
    pub selectors: Vec<Selector>,
}

/// Two resources agree in URL and in each selector, in order.
pub open spec fn same_resource(a: Resource, b: Resource) -> bool {
    &&& a.url@ == b.url@
    &&& a.selectors.len() == b.selectors.len()
    &&& forall|i: int| 0 <= i < a.selectors.len() ==> same_selector(a.selectors@[i], b.selectors@[i])
}

/// The URL template holds the placeholder token.
pub open spec fn wants_parameter(url: Seq<char>) -> bool {
    contains_seq(url, placeholder())
}

impl Resource {
    /// A resource with the given URL template and selectors.
    pub fn new(url: String, selectors: Vec<Selector>) -> (r: Self)
        ensures
            r.url == url,
            r.selectors == selectors,
    {
        Self { url, selectors }
    }

    /// Replaces every placeholder token in the URL by `param`.
    pub fn mut_url_with_param(&mut self, param: &str)
        ensures
            final(self).url@ == replace_all(old(self).url@, placeholder(), param@),
            final(self).selectors == old(self).selectors,
    {
        proof {
            lemma_placeholder_view();
        }
        self.url = replace_str(self.url.as_str(), URL_PARAM_PLACEHOLDER, param);
    }

    /// Whether the URL holds the placeholder token.
    pub fn needs_parameter(&self) -> (r: bool)
        ensures
            r == wants_parameter(self.url@),
    {
        proof {
            lemma_placeholder_view();
        }
        contains_str(self.url.as_str(), URL_PARAM_PLACEHOLDER)
    }

    /// The text a resource is shown by: its quoted URL and its number of selectors.
    pub fn summary(&self) -> (r: String)
        ensures
            r@ == "\""@ + self.url@ + "\" with "@ + decimal(self.selectors.len() as nat) + " selectors"@,
    {
        let count = decimal_string(self.selectors.len());
        String::from_str("\"").concat(self.url.as_str()).concat("\" with ").concat(count.as_str()).concat(" selectors")
    }

    /// Whether the two resources agree in URL and selectors.
    pub fn same_as(&self, other: &Resource) -> (r: bool)
        ensures
            r == same_resource(*self, *other),
    {
        if self.url != other.url || self.selectors.len() != other.selectors.len() {
            return false;
        }
        let mut i: usize = 0;
        while i < self.selectors.len()
            invariant
                self.selectors.len() == other.selectors.len(),
                i <= self.selectors.len(),
                forall|j: int| 0 <= j < i ==> same_selector(self.selectors@[j], other.selectors@[j]),
            decreases self.selectors.len() - i,
        {
            if !self.selectors[i].same_as(&other.selectors[i]) {
                return false;
            }
            i = i + 1;
        }
        true
    }
}

/// The first index at which `v` holds a resource equal to `r`.
fn resource_index(v: &Vec<Resource>, res: &Resource) -> (r: usize)
    requires
        exists|i: int| 0 <= i < v.len() && same_resource(v@[i], *res),
    ensures
        r < v.len(),
        same_resource(v@[r as int], *res),
        forall|j: int| 0 <= j < r ==> !same_resource(v@[j], *res),
{
    let mut i: usize = 0;
    loop
        invariant
            exists|k: int| i <= k < v.len() && same_resource(v@[k], *res),
            forall|j: int| 0 <= j < i ==> !same_resource(v@[j], *res),
        decreases v.len() - i,
    {
        if v[i].same_as(res) {
            return i;
        }
        i = i + 1;
    }
}

impl<'a> Position<&'a Resource> for Vec<Resource> {
    open spec fn holds_at(&self, element: &'a Resource, i: int) -> bool {
        0 <= i < self.len() && same_resource(self@[i], *element)
    }

    fn position(&self, element: &'a Resource) -> (r: usize) {
        resource_index(self, element)
    }
}

impl<'a> std::ops::Index<&'a Resource> for Vec<Resource> {
    type Output = Resource;

    fn index(&self, index: &'a Resource) -> (r: &Resource)
        ensures
            same_resource(*r, *index),
    {
        let i = resource_index(self, index);
        &self[i]
    }
}

impl<'a> vstd::std_specs::core::IndexSpecImpl<&'a Resource> for Vec<Resource> {
    open spec fn index_req(&self, index: &&'a Resource) -> bool {
        exists|i: int| 0 <= i < self.len() && same_resource(self@[i], **index)
    }
}

/// The file name extension of a config format, with its dot.
pub open spec fn extension(cf: ConfigFormat) -> Seq<char> {
    match cf {
        ConfigFormat::Toml => ".toml"@,
        ConfigFormat::Json => ".json"@,
    }
}

/// A named, described list of resources.
#[derive(Clone, Debug)]
pub struct Config {
    pub name: String,
    pub description: String,
    pub resources: Vec<Resource>,
}

/// Some resource of the list has a URL that holds the placeholder token.
pub open spec fn any_wants_parameter(resources: Seq<Resource>) -> bool {
    exists|i: int| 0 <= i < resources.len() && wants_parameter(#[trigger] resources[i].url@)
}

/// Whether any resource's URL holds the placeholder token.
pub fn any_needs_parameter(resources: &Vec<Resource>) -> (r: bool)
    ensures
        r == any_wants_parameter(resources@),
{
    let mut i: usize = 0;
    while i < resources.len()
        invariant
            i <= resources.len(),
            forall|j: int| 0 <= j < i ==> !wants_parameter(#[trigger] resources@[j].url@),
        decreases resources.len() - i,
    {
        if resources[i].needs_parameter() {
            return true;
        }
        i = i + 1;
    }
    false
}

impl Config {
    /// A config with the given name, description and resources.
    pub fn new(name: String, description: String, resources: Vec<Resource>) -> (r: Self)
        ensures
            r.name == name,
            r.description == description,
            r.resources == resources,
    {
        Self { name, description, resources }
    }

    /// The config's description.
    pub fn description(&self) -> (r: &str)
        ensures
            r@ == self.description@,
    {
        self.description.as_str()
    }

    /// Whether any resource's URL holds the placeholder token.
    pub fn needs_parameters(&self) -> (r: bool)
        ensures
            r == any_wants_parameter(self.resources@),
    {
        any_needs_parameter(&self.resources)
    }

    /// The name of the file the config is stored in for the given format.
    pub fn file_name(&self, cf: ConfigFormat) -> (r: String)
        ensures
            r@ == self.name@ + extension(cf),
    {
        let base = self.name.clone();
        match cf {
            ConfigFormat::Toml => base.concat(".toml"),
            ConfigFormat::Json => base.concat(".json"),
        }
    }
}

} // verus!
