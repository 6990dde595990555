//! Typing matched text, and extracting every selector of a resource from one
//! parsed document.
use vstd::prelude::*;
use crate::document::{matched_text, match_text, selector_parses, CssPath, Document};
use crate::numeric::{lower_of, normalize, numeral_of, Numeral};
use crate::structure::{Selector, SelectorType};

verus! {

/// A matched value, typed.
#[derive(Clone, Debug)]
pub enum FieldValue {
    Text(String),
    Number(Numeral),
}

/// The mathematical value of a `FieldValue`.
pub enum FieldValueView {
    Text(Seq<char>),
    Number(Seq<char>, nat),
}

impl View for FieldValue {
    type V = FieldValueView;

    open spec fn view(&self) -> FieldValueView {
        match self {
            FieldValue::Text(s) => FieldValueView::Text(s@),
            FieldValue::Number(n) => FieldValueView::Number(n.digits@, n.magnitude as nat),
        }
    }
}

/// A selector's name with the value it extracted.
#[derive(Clone, Debug)]
pub struct ParsedValue {
    pub name: String,
    pub value: FieldValue,
}

impl View for ParsedValue {
    type V = (Seq<char>, FieldValueView);

    open spec fn view(&self) -> (Seq<char>, FieldValueView) {
        (self.name@, self.value@)
    }
}

/// Why a selector could not be extracted.
#[derive(Clone, Debug)]
pub enum ExtractionError {
    /// The selector's path is no CSS selector.
    InvalidSelector { name: String, path: String },
    /// The selector asks for a number and its text holds none.
    NotANumber { name: String, raw: String },
}

/// The mathematical value of an `ExtractionError`.
pub enum ExtractionErrorView {
    InvalidSelector(Seq<char>, Seq<char>),
    NotANumber(Seq<char>, Seq<char>),
}

impl View for ExtractionError {
    type V = ExtractionErrorView;

    open spec fn view(&self) -> ExtractionErrorView {
        match self {
            ExtractionError::InvalidSelector { name, path } => ExtractionErrorView::InvalidSelector(name@, path@),
            ExtractionError::NotANumber { name, raw } => ExtractionErrorView::NotANumber(name@, raw@),
        }
    }
}

/// The value that text of the given type stands for: the text itself for a
/// string, its numeral for a number, or `None` where a number is asked for
/// and the text holds none.
pub open spec fn typed_value(raw: Seq<char>, ty: SelectorType) -> Option<FieldValueView> {
    match ty {
        SelectorType::String => Some(FieldValueView::Text(raw)),
        SelectorType::Number => match numeral_of(lower_of(raw)) {
            Some(n) => Some(FieldValueView::Number(n.0, n.1)),
            None => None,
        },
    }
}

/// Gives matched text its type. Text that a number field cannot read is
/// refused with `NotANumber`, naming the field and the text.
pub fn type_value(name: &str, raw: String, ty: SelectorType) -> (r: Result<FieldValue, ExtractionError>)
    ensures
        match typed_value(raw@, ty) {
            Some(v) => r matches Ok(x) && x@ == v,
            None => r matches Err(e) && e@ == ExtractionErrorView::NotANumber(name@, raw@),
        },
{
    match ty {
        SelectorType::String => Ok(FieldValue::Text(raw)),
        SelectorType::Number => match normalize(raw.as_str()) {
            Some(n) => Ok(FieldValue::Number(n)),
            None => Err(ExtractionError::NotANumber { name: name.to_owned(), raw }),
        },
    }
}

/// What one selector extracts from a document's text.
pub open spec fn field_outcome(source: Seq<char>, s: Selector) -> Result<(Seq<char>, FieldValueView), ExtractionErrorView> {
    if !selector_parses(s.path@) {
        Err(ExtractionErrorView::InvalidSelector(s.name@, s.path@))
    } else {
        let raw = matched_text(source, s.path@);
        match typed_value(raw, s.parsed_type) {
            Some(v) => Ok((s.name@, v)),
            None => Err(ExtractionErrorView::NotANumber(s.name@, raw)),
        }
    }
}

/// What a list of selectors extracts from a document's text: a value for each
/// selector in order, or the failure of the first one that fails.
pub open spec fn extraction(source: Seq<char>, sels: Seq<Selector>) -> Result<Seq<(Seq<char>, FieldValueView)>, ExtractionErrorView>
    decreases sels.len(),
{
    if sels.len() == 0 {
        Ok(Seq::empty())
    } else {
        match extraction(source, sels.drop_last()) {
            Err(e) => Err(e),
            Ok(vs) => match field_outcome(source, sels.last()) {
                Err(e) => Err(e),
                Ok(v) => Ok(vs.push(v)),
            },
        }
    }
}

/// The views of a list of parsed values.
pub open spec fn parsed_views(v: Seq<ParsedValue>) -> Seq<(Seq<char>, FieldValueView)> {
    v.map_values(|p: ParsedValue| p@)
}

/// Extracts one value per selector from one document, in the selectors'
/// order. Any failing selector fails the whole extraction, and no partial
/// list is returned.
pub fn grab(document: &Document, selectors: &Vec<Selector>) -> (r: Result<Vec<ParsedValue>, ExtractionError>)
    ensures
        match extraction(document@, selectors@) {
            Ok(vs) => r matches Ok(v) && parsed_views(v@) == vs,
            Err(e) => r matches Err(x) && x@ == e,
        },
        r matches Ok(v) ==> v.len() == selectors.len()
            && forall|i: int| 0 <= i < v.len() ==> (#[trigger] v@[i]).name@ == selectors@[i].name@,
{
    let mut values: Vec<ParsedValue> = Vec::new();
    let mut i: usize = 0;
    assert(parsed_views(values@) =~= Seq::empty());
    assert(selectors@.subrange(0, 0).len() == 0);
    while i < selectors.len()
        invariant
            i <= selectors.len(),
            extraction(document@, selectors@.subrange(0, i as int)) == Ok::<_, ExtractionErrorView>(parsed_views(values@)),
        decreases selectors.len() - i,
    {
        let s = &selectors[i];
        assert(selectors@.subrange(0, i + 1).drop_last() =~= selectors@.subrange(0, i as int));
        let css = match CssPath::parse(s.path.as_str()) {
            Some(c) => c,
            None => {
                proof {
                    lemma_failure_persists(document@, selectors@, i + 1);
                }
                return Err(ExtractionError::InvalidSelector { name: s.name.clone(), path: s.path.clone() });
            },
        };
        let raw = match_text(document, &css);
        match type_value(s.name.as_str(), raw, s.parsed_type) {
            Ok(v) => {
                let name = s.name.clone();
                let ghost before = values@;
                values.push(ParsedValue { name, value: v });
                assert(values@.drop_last() =~= before);
                assert(parsed_views(values@) =~= parsed_views(before).push(values@.last()@));
            },
            Err(e) => {
                proof {
                    lemma_failure_persists(document@, selectors@, i + 1);
                }
                return Err(e);
            },
        }
        i = i + 1;
    }
    assert(selectors@.subrange(0, selectors.len() as int) =~= selectors@);
    proof {
        lemma_extraction_keeps_selector_order(document@, selectors@);
        assert forall|k: int| 0 <= k < values.len() implies (#[trigger] values@[k]).name@ == selectors@[k].name@ by {
            assert(parsed_views(values@)[k] == values@[k]@);
        }
    }
    Ok(values)
}

/// Once a prefix of the selectors fails, the whole list fails the same way.
proof fn lemma_failure_persists(source: Seq<char>, sels: Seq<Selector>, k: int)
    requires
        0 <= k <= sels.len(),
        extraction(source, sels.subrange(0, k)) is Err,
    ensures
        extraction(source, sels) == extraction(source, sels.subrange(0, k)),
    decreases sels.len(),
{
    if sels.len() > k {
        assert(sels.drop_last().subrange(0, k) =~= sels.subrange(0, k));
        lemma_failure_persists(source, sels.drop_last(), k);
    } else {
        assert(sels.subrange(0, k) =~= sels);
    }
}

/// A successful extraction has one value per selector, named as the selectors
/// are, in their order.
pub proof fn lemma_extraction_keeps_selector_order(source: Seq<char>, sels: Seq<Selector>)
    ensures
        extraction(source, sels) matches Ok(vs) ==> vs.len() == sels.len()
            && forall|i: int| 0 <= i < sels.len() ==> (#[trigger] vs[i]).0 == sels[i].name@,
    decreases sels.len(),
{
    if sels.len() > 0 {
        lemma_extraction_keeps_selector_order(source, sels.drop_last());
    }
}

/// The text that a selector path finds in a document, or `None` where the
/// path is no CSS selector.
pub fn grab_one(document: &Document, path: &str) -> (r: Option<String>)
    ensures
        r is Some == selector_parses(path@),
        r matches Some(t) ==> t@ == matched_text(document@, path@),
{
    match CssPath::parse(path) {
        Some(css) => Some(match_text(document, &css)),
        None => None,
    }
}

/// The index of the first selector whose path is no CSS selector, or `None`
/// where every path is one; lets a batch refuse a config before any fetch.
pub fn first_invalid_selector(selectors: &Vec<Selector>) -> (r: Option<usize>)
    ensures
        match r {
            Some(i) => i < selectors.len() && !selector_parses(selectors@[i as int].path@)
                && forall|j: int| 0 <= j < i ==> selector_parses(#[trigger] selectors@[j].path@),
            None => forall|j: int| 0 <= j < selectors.len() ==> selector_parses(#[trigger] selectors@[j].path@),
        },
{
    let mut i: usize = 0;
    while i < selectors.len()
        invariant
            i <= selectors.len(),
            forall|j: int| 0 <= j < i ==> selector_parses(#[trigger] selectors@[j].path@),
        decreases selectors.len() - i,
    {
        if CssPath::parse(selectors[i].path.as_str()).is_none() {
            return Some(i);
        }
        i = i + 1;
    }
    None
}

/// Why a resource gave no values.
#[derive(Clone, Debug)]
pub enum ResourceError {
    /// Its page could not be fetched; the message says why.
    Fetch(String),
    /// Its page was fetched and a selector failed.
    Extraction(ExtractionError),
}

/// Extracts a resource's values from the outcome of fetching its page: a
/// failed fetch fails the resource with its message; a fetched body is parsed
/// once and every selector is evaluated against it, as `grab` does.
pub fn extract_fetched(selectors: &Vec<Selector>, fetched: Result<String, String>) -> (r: Result<Vec<ParsedValue>, ResourceError>)
    ensures
        match fetched {
            Err(m) => r matches Err(ResourceError::Fetch(x)) && x@ == m@,
            Ok(body) => match extraction(body@, selectors@) {
                Ok(vs) => r matches Ok(v) && parsed_views(v@) == vs,
                Err(e) => r matches Err(ResourceError::Extraction(x)) && x@ == e,
            },
        },
{
    match fetched {
        Err(m) => Err(ResourceError::Fetch(m)),
        Ok(body) => {
            let document = Document::parse(body);
            match grab(&document, selectors) {
                Ok(v) => Ok(v),
                Err(e) => Err(ResourceError::Extraction(e)),
            }
        },
    }
}

} // verus!
