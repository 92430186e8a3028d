//! The captive-portal login: finding the login form in the portal page,
//! filling in its fields, resolving its action, and the small pieces of the
//! client around it (choosing the interface address, rendering headers).

use vstd::prelude::*;
use vstd::string::StringExecFns;
use vstd::utf8::encode_utf8;
use scraper::{ElementRef, Html, Selector};
use crate::urlencoded::{form_parse, form_urlencode, lemma_form_parse_urlencode, serialize_pairs, utf8_pairs};
use crate::text::{ascii_lowercase, join_strings, join_with, lower_chars, str_eq};

verus! {

/// `url::ParseError`, the error of URL parsing and joining.
#[verifier::external_type_specification]
#[verifier::external_body]
pub struct ExUrlParseError(url::ParseError);

/// An HTML element as the logic reads it: its attributes, as the HTML
/// parser reports them, each as (local name, value).
#[derive(Debug)]
pub struct HtmlElement {
    pub attributes: Vec<(String, String)>,
}

/// The attributes of an element as plain values.
pub type ElementView = Seq<(Seq<char>, Seq<char>)>;

impl View for HtmlElement {
    type V = ElementView;

    open spec fn view(&self) -> ElementView {
        self.attributes@.map_values(|a: (String, String)| (a.0@, a.1@))
    }
}

/// Value of the first attribute called `name`, if any.
pub open spec fn attr_of(element: ElementView, name: Seq<char>) -> Option<Seq<char>>
    decreases element.len(),
{
    if element.len() == 0 {
        None
    } else if element[0].0 == name {
        Some(element[0].1)
    } else {
        attr_of(element.drop_first(), name)
    }
}

/// `attr_of(element, name)` or `default` when there is no such attribute.
pub open spec fn attr_or(element: ElementView, name: Seq<char>, default: Seq<char>) -> Seq<char> {
    match attr_of(element, name) {
        Some(v) => v,
        None => default,
    }
}

proof fn lemma_attr_of_prefix(element: ElementView, name: Seq<char>, i: int)
    requires
        0 <= i < element.len(),
        forall|j: int| 0 <= j < i ==> element[j].0 != name,
    ensures
        attr_of(element, name) == attr_of(element.subrange(i, element.len() as int), name),
    decreases i,
{
    if i > 0 {
        lemma_attr_of_prefix(element.drop_first(), name, i - 1);
        assert(element.drop_first().subrange(i - 1, element.len() - 1) =~= element.subrange(
            i,
            element.len() as int,
        ));
    } else {
        assert(element.subrange(0, element.len() as int) =~= element);
    }
}

impl HtmlElement {
    /// The value of the first attribute called `name`.
    pub fn attr(&self, name: &str) -> (r: Option<&str>)
        ensures
            match r {
                Some(v) => attr_of(self@, name@) == Some(v@),
                None => attr_of(self@, name@) is None,
            },
    {
        let n = self.attributes.len();
        let mut i: usize = 0;
        while i < n
            invariant
                n == self.attributes@.len(),
                i <= n,
                forall|j: int| 0 <= j < i ==> self@[j].0 != name@,
            decreases n - i,
        {
            let a = &self.attributes[i];
            if str_eq(a.0.as_str(), name) {
                proof {
                    lemma_attr_of_prefix(self@, name@, i as int);
                }
                return Some(a.1.as_str());
            }
            i = i + 1;
        }
        proof {
            lemma_attr_none_suffix(self@, name@, 0);
            assert(self@.subrange(0, self@.len() as int) =~= self@);
        }
        None
    }
}

proof fn lemma_attr_none_suffix(v: ElementView, name: Seq<char>, k: int)
    requires
        0 <= k <= v.len(),
        forall|j: int| 0 <= j < v.len() ==> v[j].0 != name,
    ensures
        attr_of(v.subrange(k, v.len() as int), name) is None,
    decreases v.len() - k,
{
    let s = v.subrange(k, v.len() as int);
    if k < v.len() {
        lemma_attr_none_suffix(v, name, k + 1);
        assert(s.drop_first() =~= v.subrange(k + 1, v.len() as int));
    }
}

/// What a search of a page for a form gives.
#[derive(Debug)]
pub enum FormLookup {
    /// One of the two selectors is not valid CSS.
    InvalidSelector,
    /// No element of the page matches the form selector.
    NotFound,
    /// The first matching form, and the elements inside it that match the
    /// field selector, in document order.
    Found(HtmlElement, Vec<HtmlElement>),
}

/// [`FormLookup`] as plain values.
pub enum FormLookupView {
    InvalidSelector,
    NotFound,
    Found(ElementView, Seq<ElementView>),
}

impl View for FormLookup {
    type V = FormLookupView;

    open spec fn view(&self) -> FormLookupView {
        match self {
            FormLookup::InvalidSelector => FormLookupView::InvalidSelector,
            FormLookup::NotFound => FormLookupView::NotFound,
            FormLookup::Found(form, fields) => FormLookupView::Found(
                form@,
                fields@.map_values(|e: HtmlElement| e@),
            ),
        }
    }
}

/// What the HTML parser and selector engine find for `form_selector`, and
/// for `field_selector` inside it, in `page`.
pub uninterp spec fn html_form_lookup(
    page: Seq<char>,
    form_selector: Seq<char>,
    field_selector: Seq<char>,
) -> FormLookupView;

/// Parses `page` as an HTML document with `scraper::Html::parse_document`,
/// takes the first element that `form_selector` matches (`Html::select`),
/// and the elements inside it that `field_selector` matches
/// (`ElementRef::select`), each with its attributes (`Element::attrs`).
/// The contract only names the outcome: how HTML is parsed and selectors
/// match is the crate's, and is not restated here.
#[verifier::external_body]
fn select_form(page: &str, form_selector: &str, field_selector: &str) -> (r: FormLookup)
    ensures
        r@ == html_form_lookup(page@, form_selector@, field_selector@),
{
    let (outer, inner) = match (Selector::parse(form_selector), Selector::parse(field_selector)) {
        (Ok(outer), Ok(inner)) => (outer, inner),
        _ => return FormLookup::InvalidSelector,
    };
    let element = |e: ElementRef| HtmlElement {
        attributes: e.value().attrs().map(|(k, v)| (k.to_string(), v.to_string())).collect(),
    };
    let document = Html::parse_document(page);
    match document.select(&outer).next() {
        None => FormLookup::NotFound,
        Some(form) => FormLookup::Found(element(form), form.select(&inner).map(element).collect()),
    }
}

/// The URL that `reference` designates relative to the absolute URL `base`
/// (`None` when either does not parse).
pub uninterp spec fn url_join(base: Seq<char>, reference: Seq<char>) -> Option<Seq<char>>;

/// Parses `base` with `url::Url::parse`, resolves `reference` against it
/// with `Url::join`, and serializes the result. The contract names the
/// result; URL resolution itself is the crate's.
#[verifier::external_body]
fn join_url(base: &str, reference: &str) -> (r: Result<String, url::ParseError>)
    ensures
        r is Ok <==> url_join(base@, reference@) is Some,
        r matches Ok(s) ==> url_join(base@, reference@) == Some(s@),
{
    url::Url::parse(base).and_then(|b| b.join(reference)).map(String::from)
}

/// Input types that are buttons or uploads rather than values to submit.
pub open spec fn is_button_type(t: Seq<char>) -> bool {
    t == "submit"@ || t == "button"@ || t == "reset"@ || t == "image"@ || t == "file"@
}

/// The lowered `type` of an input; an input without one is a text input.
pub open spec fn input_type(e: ElementView) -> Seq<char> {
    lower_chars(attr_or(e, "type"@, "text"@))
}

/// The pair that one form input contributes, if any: named inputs that are
/// not buttons give their name and, for a name that is `username` or
/// `password` in any ASCII case, the user's value, else their own `value`
/// (empty when absent). An element without a `name` contributes nothing;
/// the field selector `input[name]` only picks named inputs.
pub open spec fn form_field(e: ElementView, username: Seq<char>, password: Seq<char>) -> Option<
    (Seq<char>, Seq<char>),
> {
    match attr_of(e, "name"@) {
        None => None,
        Some(name) => if is_button_type(input_type(e)) {
            None
        } else if lower_chars(name) == "username"@ {
            Some((name, username))
        } else if lower_chars(name) == "password"@ {
            Some((name, password))
        } else {
            Some((name, attr_or(e, "value"@, ""@)))
        },
    }
}

/// The pairs of all inputs, in order.
pub open spec fn form_fields(inputs: Seq<ElementView>, username: Seq<char>, password: Seq<char>) -> Seq<
    (Seq<char>, Seq<char>),
>
    decreases inputs.len(),
{
    if inputs.len() == 0 {
        Seq::empty()
    } else {
        form_fields(inputs.drop_last(), username, password) + match form_field(
            inputs.last(),
            username,
            password,
        ) {
            Some(f) => seq![f],
            None => Seq::empty(),
        }
    }
}

/// Whether some pair has a name equal to `key` up to ASCII case.
pub open spec fn has_field(fields: Seq<(Seq<char>, Seq<char>)>, key: Seq<char>) -> bool {
    exists|i: int| 0 <= i < fields.len() && lower_chars(#[trigger] fields[i].0) == key
}

/// The form's pairs, followed by `username`, `password` and `popup=true`
/// for each of those names that the form does not already carry.
pub open spec fn login_fields_spec(
    inputs: Seq<ElementView>,
    username: Seq<char>,
    password: Seq<char>,
) -> Seq<(Seq<char>, Seq<char>)> {
    let f = form_fields(inputs, username, password);
    let f1 = if has_field(f, "username"@) {
        f
    } else {
        f.push(("username"@, username))
    };
    let f2 = if has_field(f, "password"@) {
        f1
    } else {
        f1.push(("password"@, password))
    };
    if has_field(f, "popup"@) {
        f2
    } else {
        f2.push(("popup"@, "true"@))
    }
}

/// Pairs as plain values.
pub open spec fn pairs_view(pairs: Seq<(String, String)>) -> Seq<(Seq<char>, Seq<char>)> {
    pairs.map_values(|p: (String, String)| (p.0@, p.1@))
}

fn is_button(t: &str) -> (r: bool)
    ensures
        r == is_button_type(t@),
{
    str_eq(t, "submit") || str_eq(t, "button") || str_eq(t, "reset") || str_eq(t, "image")
        || str_eq(t, "file")
}

/// The pair that one input contributes (see [`form_field`]).
fn input_field(e: &HtmlElement, username: &str, password: &str) -> (r: Option<(String, String)>)
    ensures
        match r {
            Some(p) => form_field(e@, username@, password@) == Some((p.0@, p.1@)),
            None => form_field(e@, username@, password@) is None,
        },
{
    let name = match e.attr("name") {
        Some(n) => n,
        None => return None,
    };
    let t = match e.attr("type") {
        Some(t) => ascii_lowercase(t),
        None => ascii_lowercase("text"),
    };
    if is_button(t.as_str()) {
        return None;
    }
    let key = ascii_lowercase(name);
    let value = if str_eq(key.as_str(), "username") {
        username.to_owned()
    } else if str_eq(key.as_str(), "password") {
        password.to_owned()
    } else {
        match e.attr("value") {
            Some(v) => v.to_owned(),
            None => "".to_owned(),
        }
    };
    Some((name.to_owned(), value))
}

/// The pairs that a login form submits for `inputs` (see
/// [`login_fields_spec`]).
pub fn login_fields(inputs: &Vec<HtmlElement>, username: &str, password: &str) -> (r: Vec<
    (String, String),
>)
    ensures
        pairs_view(r@) == login_fields_spec(
            inputs@.map_values(|e: HtmlElement| e@),
            username@,
            password@,
        ),
{
    let ghost elems = inputs@.map_values(|e: HtmlElement| e@);
    let mut fields: Vec<(String, String)> = Vec::new();
    let mut has_username = false;
    let mut has_password = false;
    let mut has_popup = false;
    let n = inputs.len();
    let mut i: usize = 0;
    while i < n
        invariant
            n == inputs@.len(),
            elems == inputs@.map_values(|e: HtmlElement| e@),
            i <= n,
            pairs_view(fields@) == form_fields(elems.subrange(0, i as int), username@, password@),
            has_username == has_field(pairs_view(fields@), "username"@),
            has_password == has_field(pairs_view(fields@), "password"@),
            has_popup == has_field(pairs_view(fields@), "popup"@),
        decreases n - i,
    {
        let ghost before = pairs_view(fields@);
        proof {
            assert(elems.subrange(0, i + 1).drop_last() =~= elems.subrange(0, i as int));
            assert(elems.subrange(0, i + 1).last() == elems[i as int]);
        }
        match input_field(&inputs[i], username, password) {
            Some(p) => {
                let key = ascii_lowercase(p.0.as_str());
                let is_u = str_eq(key.as_str(), "username");
                let is_p = str_eq(key.as_str(), "password");
                let is_pop = str_eq(key.as_str(), "popup");
                let ghost pv = (p.0@, p.1@);
                fields.push(p);
                proof {
                    let after = pairs_view(fields@);
                    assert(after =~= before.push(pv));
                    assert(after =~= before + seq![pv]);
                    assert(after[before.len() as int] == pv);
                    assert forall|k: Seq<char>| has_field(after, k) == (has_field(before, k) || lower_chars(pv.0) == k) by {
                        if has_field(after, k) {
                            let j = choose|j: int| 0 <= j < after.len() && lower_chars(#[trigger] after[j].0) == k;
                            if j < before.len() {
                                assert(after[j] == before[j]);
                            }
                        }
                        if has_field(before, k) {
                            let j = choose|j: int| 0 <= j < before.len() && lower_chars(#[trigger] before[j].0) == k;
                            assert(after[j] == before[j]);
                        }
                    }
                }
                has_username = has_username || is_u;
                has_password = has_password || is_p;
                has_popup = has_popup || is_pop;
            },
            None => {
                assert(form_fields(elems.subrange(0, i + 1), username@, password@) =~= before);
            },
        }
        i = i + 1;
    }
    assert(elems.subrange(0, n as int) =~= elems);
    let ghost f = pairs_view(fields@);
    if !has_username {
        fields.push(("username".to_owned(), username.to_owned()));
    }
    let ghost f1 = pairs_view(fields@);
    assert(f1 =~= if has_field(f, "username"@) { f } else { f.push(("username"@, username@)) });
    if !has_password {
        fields.push(("password".to_owned(), password.to_owned()));
    }
    let ghost f2 = pairs_view(fields@);
    assert(f2 =~= if has_field(f, "password"@) { f1 } else { f1.push(("password"@, password@)) });
    if !has_popup {
        fields.push(("popup".to_owned(), "true".to_owned()));
    }
    assert(pairs_view(fields@) =~= if has_field(f, "popup"@) { f2 } else { f2.push(("popup"@, "true"@)) });
    fields
}

/// Pairs whose name is `key` up to ASCII case all carry `value`.
pub open spec fn field_values_are(fields: Seq<(Seq<char>, Seq<char>)>, key: Seq<char>, value: Seq<char>) -> bool {
    forall|i: int| 0 <= i < fields.len() && lower_chars(#[trigger] fields[i].0) == key ==> fields[i].1 == value
}

proof fn lemma_form_fields_values(inputs: Seq<ElementView>, username: Seq<char>, password: Seq<char>)
    ensures
        field_values_are(form_fields(inputs, username, password), "username"@, username),
        field_values_are(form_fields(inputs, username, password), "password"@, password),
    decreases inputs.len(),
{
    reveal_strlit("username");
    reveal_strlit("password");
    if inputs.len() > 0 {
        lemma_form_fields_values(inputs.drop_last(), username, password);
        let prev = form_fields(inputs.drop_last(), username, password);
        let f = form_fields(inputs, username, password);
        assert("username"@ != "password"@) by {
            assert("username"@[0] != "password"@[0]);
        }
        assert forall|i: int| 0 <= i < f.len() && lower_chars(#[trigger] f[i].0) == "username"@ implies f[i].1 == username by {
            if i < prev.len() {
                assert(f[i] == prev[i]);
            }
        }
        assert forall|i: int| 0 <= i < f.len() && lower_chars(#[trigger] f[i].0) == "password"@ implies f[i].1 == password by {
            if i < prev.len() {
                assert(f[i] == prev[i]);
            }
        }
    }
}

proof fn lemma_push_keeps_values(
    fields: Seq<(Seq<char>, Seq<char>)>,
    pair: (Seq<char>, Seq<char>),
    key: Seq<char>,
    value: Seq<char>,
)
    requires
        field_values_are(fields, key, value),
        lower_chars(pair.0) == key ==> pair.1 == value,
    ensures
        field_values_are(fields.push(pair), key, value),
        has_field(fields, key) ==> has_field(fields.push(pair), key),
        lower_chars(pair.0) == key ==> has_field(fields.push(pair), key),
{
    let g = fields.push(pair);
    assert forall|i: int| 0 <= i < g.len() && lower_chars(#[trigger] g[i].0) == key implies g[i].1 == value by {
        if i < fields.len() {
            assert(g[i] == fields[i]);
        }
    }
    lemma_push_keeps_field(fields, pair, key);
}

proof fn lemma_push_keeps_field(fields: Seq<(Seq<char>, Seq<char>)>, pair: (Seq<char>, Seq<char>), key: Seq<char>)
    ensures
        has_field(fields, key) ==> has_field(fields.push(pair), key),
        lower_chars(pair.0) == key ==> has_field(fields.push(pair), key),
{
    let g = fields.push(pair);
    if has_field(fields, key) {
        let j = choose|j: int| 0 <= j < fields.len() && lower_chars(#[trigger] fields[j].0) == key;
        assert(g[j] == fields[j]);
    }
    if lower_chars(pair.0) == key {
        assert(g[fields.len() as int] == pair);
    }
}

/// A login body always carries the user's credentials: pairs named
/// `username` and `password` (in any ASCII case) are present and hold exactly
/// the given user name and password, and a `popup` pair is present.
pub proof fn lemma_login_fields_carry_credentials(
    inputs: Seq<ElementView>,
    username: Seq<char>,
    password: Seq<char>,
)
    ensures
        has_field(login_fields_spec(inputs, username, password), "username"@),
        has_field(login_fields_spec(inputs, username, password), "password"@),
        has_field(login_fields_spec(inputs, username, password), "popup"@),
        field_values_are(login_fields_spec(inputs, username, password), "username"@, username),
        field_values_are(login_fields_spec(inputs, username, password), "password"@, password),
{
    reveal_strlit("username");
    reveal_strlit("password");
    reveal_strlit("popup");
    reveal_strlit("true");
    lemma_form_fields_values(inputs, username, password);
    let f = form_fields(inputs, username, password);
    assert(lower_chars("username"@) =~= "username"@);
    assert(lower_chars("password"@) =~= "password"@);
    assert(lower_chars("popup"@) =~= "popup"@);
    assert("username"@ != "password"@) by {
        assert("username"@[0] != "password"@[0]);
    }
    assert("username"@ != "popup"@) by {
        assert("username"@[0] != "popup"@[0]);
    }
    assert("password"@ != "popup"@) by {
        assert("password"@[1] != "popup"@[1]);
    }
    let up = ("username"@, username);
    let pp = ("password"@, password);
    let pop = ("popup"@, "true"@);
    let f1 = if has_field(f, "username"@) { f } else { f.push(up) };
    if !has_field(f, "username"@) {
        lemma_push_keeps_values(f, up, "username"@, username);
        lemma_push_keeps_values(f, up, "password"@, password);
        lemma_push_keeps_field(f, up, "popup"@);
    }
    let f2 = if has_field(f, "password"@) { f1 } else { f1.push(pp) };
    if !has_field(f, "password"@) {
        lemma_push_keeps_values(f1, pp, "username"@, username);
        lemma_push_keeps_values(f1, pp, "password"@, password);
        lemma_push_keeps_field(f1, pp, "popup"@);
    }
    if !has_field(f, "popup"@) {
        lemma_push_keeps_values(f2, pop, "username"@, username);
        lemma_push_keeps_values(f2, pop, "password"@, password);
        lemma_push_keeps_field(f2, pop, "popup"@);
    }
}

proof fn lemma_form_fields_contains(
    inputs: Seq<ElementView>,
    username: Seq<char>,
    password: Seq<char>,
    k: int,
) -> (j: int)
    requires
        0 <= k < inputs.len(),
        form_field(inputs[k], username, password) is Some,
    ensures
        0 <= j < form_fields(inputs, username, password).len(),
        form_fields(inputs, username, password)[j] == form_field(inputs[k], username, password)->0,
    decreases inputs.len(),
{
    let prev = form_fields(inputs.drop_last(), username, password);
    let f = form_fields(inputs, username, password);
    if k == inputs.len() - 1 {
        assert(f[prev.len() as int] == form_field(inputs.last(), username, password)->0);
        prev.len() as int
    } else {
        assert(inputs.drop_last()[k] == inputs[k]);
        let j = lemma_form_fields_contains(inputs.drop_last(), username, password, k);
        assert(f[j] == prev[j]);
        j
    }
}

/// Every named input that is not a button, and whose name is neither
/// `username` nor `password` in any ASCII case, is sent as written: the
/// login pairs hold its name with its `value` attribute unchanged (empty
/// when it has none), and parsing the login body gives back exactly those
/// bytes.
pub proof fn lemma_login_fields_keep_inputs(
    inputs: Seq<ElementView>,
    username: Seq<char>,
    password: Seq<char>,
    k: int,
)
    requires
        0 <= k < inputs.len(),
        attr_of(inputs[k], "name"@) is Some,
        !is_button_type(lower_chars(attr_or(inputs[k], "type"@, "text"@))),
        lower_chars(attr_of(inputs[k], "name"@)->0) != "username"@,
        lower_chars(attr_of(inputs[k], "name"@)->0) != "password"@,
    ensures
        exists|j: int|
            0 <= j < login_fields_spec(inputs, username, password).len()
                && #[trigger] login_fields_spec(inputs, username, password)[j] == (
                attr_of(inputs[k], "name"@)->0,
                attr_or(inputs[k], "value"@, ""@),
            ),
        exists|j: int|
            0 <= j < form_parse(encode_utf8(form_urlencode(login_fields_spec(inputs, username, password)))).len()
                && #[trigger] form_parse(encode_utf8(form_urlencode(login_fields_spec(inputs, username, password))))[j]
                == (encode_utf8(attr_of(inputs[k], "name"@)->0), encode_utf8(attr_or(inputs[k], "value"@, ""@))),
{
    let name = attr_of(inputs[k], "name"@)->0;
    let value = attr_or(inputs[k], "value"@, ""@);
    assert(form_field(inputs[k], username, password) == Some((name, value)));
    let j = lemma_form_fields_contains(inputs, username, password, k);
    let f = form_fields(inputs, username, password);
    let l = login_fields_spec(inputs, username, password);
    assert(l.len() >= f.len() && l.subrange(0, f.len() as int) =~= f) by {
        let f1 = if has_field(f, "username"@) { f } else { f.push(("username"@, username)) };
        let f2 = if has_field(f, "password"@) { f1 } else { f1.push(("password"@, password)) };
        assert(f1.subrange(0, f.len() as int) =~= f);
        assert(f2.subrange(0, f.len() as int) =~= f);
    }
    assert(l[j] == l.subrange(0, f.len() as int)[j]);
    assert(l[j] == (name, value));
    lemma_form_parse_urlencode(l);
    assert(utf8_pairs(l)[j] == (encode_utf8(name), encode_utf8(value)));
}

/// Why no login request could be built from a portal page.
#[derive(Debug)]
pub enum LoginError {
    /// The form or field selector was refused by the selector parser.
    SelectorRejected,
    /// The page has no `form#login-user`.
    FormNotFound,
    /// The login form has no `action` attribute.
    MissingAction,
    /// The form's action does not resolve against the page URL.
    InvalidAction(url::ParseError),
}

/// The request that a form lookup leads to: the resolved form action and
/// the form-encoded body, or the error that stops it.
pub open spec fn login_request_matches(
    lookup: FormLookupView,
    page_url: Seq<char>,
    username: Seq<char>,
    password: Seq<char>,
    r: Result<(String, String), LoginError>,
) -> bool {
    match lookup {
        FormLookupView::InvalidSelector => r matches Err(LoginError::SelectorRejected),
        FormLookupView::NotFound => r matches Err(LoginError::FormNotFound),
        FormLookupView::Found(form, inputs) => match attr_of(form, "action"@) {
            None => r matches Err(LoginError::MissingAction),
            Some(action) => match url_join(page_url, action) {
                None => r matches Err(LoginError::InvalidAction(_)),
                Some(target) => r matches Ok((a, body)) && a@ == target && body@ == form_urlencode(
                    login_fields_spec(inputs, username, password),
                ),
            },
        },
    }
}

/// Builds the login request from the outcome of a form lookup on the page
/// found at `page_url`: the form's action resolved against `page_url`, and
/// the body that posts [`login_fields`].
pub fn login_request_from_form(
    lookup: &FormLookup,
    page_url: &str,
    username: &str,
    password: &str,
) -> (r: Result<(String, String), LoginError>)
    ensures
        login_request_matches(lookup@, page_url@, username@, password@, r),
{
    match lookup {
        FormLookup::InvalidSelector => Err(LoginError::SelectorRejected),
        FormLookup::NotFound => Err(LoginError::FormNotFound),
        FormLookup::Found(form, inputs) => {
            let action = match form.attr("action") {
                Some(a) => a,
                None => return Err(LoginError::MissingAction),
            };
            let target = match join_url(page_url, action) {
                Ok(t) => t,
                Err(e) => return Err(LoginError::InvalidAction(e)),
            };
            let fields = login_fields(inputs, username, password);
            let body = serialize_pairs(&fields);
            assert(fields@.map_values(|p: (String, String)| (p.0@, p.1@)) == pairs_view(fields@));
            Ok((target, body))
        },
    }
}

/// Finds the `form#login-user` form in the portal `page` served from
/// `page_url` and builds its login request: the URL to post to and the
/// `application/x-www-form-urlencoded` body, with `username` and `password`
/// filled in.
pub fn build_login_payload(page: &str, page_url: &str, username: &str, password: &str) -> (r: Result<
    (String, String),
    LoginError,
>)
    ensures
        login_request_matches(
            html_form_lookup(page@, "form#login-user"@, "input[name]"@),
            page_url@,
            username@,
            password@,
            r,
        ),
{
    let lookup = select_form(page, "form#login-user", "input[name]");
    login_request_from_form(&lookup, page_url, username, password)
}

/// An IP address: IPv4 as its 32-bit value, IPv6 as its 128-bit value.
#[derive(Clone, Copy, Debug, PartialEq, Eq, Structural)]
pub enum IpAddress {
    V4(u32),
    V6(u128),
}

/// One address of one network interface of this machine.
#[derive(Debug)]
pub struct InterfaceAddress {
    /// The interface's name.
    pub name: String,
    /// Whether the address is a loopback address.
    pub is_loopback: bool,
    /// The address.
    pub ip: IpAddress,
}

/// Whether an address can bind requests for `interface`: it belongs to that
/// interface, is not a loopback address, and is IPv4.
pub open spec fn usable_address(a: InterfaceAddress, interface: Seq<char>) -> bool {
    a.name@ == interface && !a.is_loopback && a.ip is V4
}

/// Which addresses can bind does not depend on the IPv4 value: the first
/// address that belongs to `interface`, is not a loopback address and is
/// IPv4 (whatever its value) is usable, and none before it is; so
/// [`select_interface_address`] gives that address.
pub proof fn lemma_first_ipv4_of_interface(addresses: Seq<InterfaceAddress>, interface: Seq<char>, k: int)
    requires
        0 <= k < addresses.len(),
        addresses[k].name@ == interface,
        !addresses[k].is_loopback,
        addresses[k].ip is V4,
        forall|j: int|
            0 <= j < k ==> !(#[trigger] addresses[j].name@ == interface && !addresses[j].is_loopback
                && addresses[j].ip is V4),
    ensures
        usable_address(addresses[k], interface),
        forall|j: int| 0 <= j < k ==> !usable_address(#[trigger] addresses[j], interface),
{
    assert forall|j: int| 0 <= j < k implies !usable_address(#[trigger] addresses[j], interface) by {
        assert(!(addresses[j].name@ == interface && !addresses[j].is_loopback && addresses[j].ip is V4));
    }
}

/// The first usable address of `interface` among `addresses`, in their order.
pub fn select_interface_address(addresses: &Vec<InterfaceAddress>, interface: &str) -> (r: Option<
    IpAddress,
>)
    ensures
        r is None <==> forall|i: int|
            0 <= i < addresses@.len() ==> !(#[trigger] addresses@[i].name@ == interface@
                && !addresses@[i].is_loopback && addresses@[i].ip is V4),
        r matches Some(ip) ==> exists|i: int|
            0 <= i < addresses@.len() && #[trigger] addresses@[i].ip == ip && addresses@[i].name@
                == interface@ && !addresses@[i].is_loopback && ip is V4 && forall|j: int|
                0 <= j < i ==> !(#[trigger] addresses@[j].name@ == interface@
                    && !addresses@[j].is_loopback && addresses@[j].ip is V4),
        match r {
            Some(ip) => exists|i: int|
                0 <= i < addresses@.len() && usable_address(#[trigger] addresses@[i], interface@)
                    && addresses@[i].ip == ip && forall|j: int|
                    0 <= j < i ==> !usable_address(#[trigger] addresses@[j], interface@),
            None => forall|i: int|
                0 <= i < addresses@.len() ==> !usable_address(#[trigger] addresses@[i], interface@),
        },
{
    let n = addresses.len();
    let mut i: usize = 0;
    while i < n
        invariant
            n == addresses@.len(),
            i <= n,
            forall|j: int| 0 <= j < i ==> !usable_address(#[trigger] addresses@[j], interface@),
        decreases n - i,
    {
        let a = &addresses[i];
        let is_v4 = match a.ip {
            IpAddress::V4(_) => true,
            IpAddress::V6(_) => false,
        };
        if str_eq(a.name.as_str(), interface) && !a.is_loopback && is_v4 {
            assert(usable_address(addresses@[i as int], interface@));
            return Some(a.ip);
        }
        i = i + 1;
    }
    None
}

/// One header as `name: value`; a value that is not visible ASCII is shown
/// as `<non-UTF-8>`.
pub open spec fn header_line(h: (Seq<char>, Option<Seq<char>>)) -> Seq<char> {
    h.0 + ": "@ + match h.1 {
        Some(v) => v,
        None => "<non-UTF-8>"@,
    }
}

/// Renders response headers one per line, in order.
pub fn format_headers(headers: &Vec<(String, Option<String>)>) -> (r: String)
    ensures
        r@ == join_with(
            headers@.map_values(
                |h: (String, Option<String>)|
                    header_line(
                        (
                            h.0@,
                            match h.1 {
                                Some(v) => Some(v@),
                                None => None,
                            },
                        ),
                    ),
            ),
            "\n"@,
        ),
{
    let mut lines: Vec<String> = Vec::new();
    let n = headers.len();
    let mut i: usize = 0;
    while i < n
        invariant
            n == headers@.len(),
            i <= n,
            lines@.len() == i,
            forall|j: int|
                0 <= j < i ==> #[trigger] lines@[j]@ == header_line(
                    (
                        headers@[j].0@,
                        match headers@[j].1 {
                            Some(v) => Some(v@),
                            None => None,
                        },
                    ),
                ),
        decreases n - i,
    {
        let h = &headers[i];
        let mut line = h.0.clone();
        line.append(": ");
        match &h.1 {
            Some(v) => line.append(v.as_str()),
            None => line.append("<non-UTF-8>"),
        }
        lines.push(line);
        i = i + 1;
    }
    let r = join_strings(&lines, "\n");
    assert(lines@.map_values(|p: String| p@) =~= headers@.map_values(
        |h: (String, Option<String>)|
            header_line(
                (
                    h.0@,
                    match h.1 {
                        Some(v) => Some(v@),
                        None => None,
                    },
                ),
            ),
    ));
    r
}

/// Whether `needle` occurs in `hay` at position `i`.
pub open spec fn occurs_at(hay: Seq<u8>, needle: Seq<u8>, i: int) -> bool {
    0 <= i && i + needle.len() <= hay.len() && hay.subrange(i, i + needle.len()) == needle
}

/// Whether `needle` occurs anywhere in `hay`.
pub open spec fn contains_bytes(hay: Seq<u8>, needle: Seq<u8>) -> bool {
    exists|i: int| occurs_at(hay, needle, i)
}

/// Whether the UTF-8 text `hay` contains the text `needle`, compared byte by
/// byte as `str::contains` does.
pub fn text_contains(hay: &str, needle: &str) -> (r: bool)
    ensures
        r == contains_bytes(encode_utf8(hay@), encode_utf8(needle@)),
{
    let h = hay.as_bytes();
    let n = needle.as_bytes();
    if n.len() > h.len() {
        assert forall|i: int| !occurs_at(h@, n@, i) by {}
        return false;
    }
    if n.len() == 0 {
        assert(h@.subrange(0, 0) =~= n@);
        assert(occurs_at(h@, n@, 0));
        return true;
    }
    let last = h.len() - n.len();
    let mut i: usize = 0;
    while i <= last
        invariant
            h@ == encode_utf8(hay@),
            n@ == encode_utf8(needle@),
            last + n@.len() == h@.len(),
            h@.len() == h.len(),
            n@.len() >= 1,
            i <= last + 1,
            forall|k: int| 0 <= k < i ==> !occurs_at(h@, n@, k),
        decreases last + 1 - i,
    {
        let mut j: usize = 0;
        let mut same = true;
        while j < n.len()
            invariant
                h@ == encode_utf8(hay@),
                n@ == encode_utf8(needle@),
                last + n@.len() == h@.len(),
                h@.len() == h.len(),
                i <= last,
                j <= n@.len(),
                same == forall|k: int| 0 <= k < j ==> h@[i + k] == n@[k],
            decreases n@.len() - j,
        {
            if h[i + j] != n[j] {
                same = false;
            }
            j = j + 1;
        }
        if same {
            assert(h@.subrange(i as int, i + n@.len()) =~= n@);
            assert(occurs_at(h@, n@, i as int));
            return true;
        }
        assert(!occurs_at(h@, n@, i as int)) by {
            if occurs_at(h@, n@, i as int) {
                let k = choose|k: int| 0 <= k < n@.len() && h@[i + k] != n@[k];
                assert(h@.subrange(i as int, i + n@.len())[k] == h@[i + k]);
            }
        }
        i = i + 1;
    }
    assert forall|k: int| !occurs_at(h@, n@, k) by {
        if 0 <= k && k + n@.len() <= h@.len() {
            assert(k < i);
        }
    }
    false
}

/// How a posted login turned out.
#[derive(Debug, PartialEq, Eq, Structural)]
pub enum LoginOutcome {
    /// The internet is reachable.
    Connected,
    /// The portal says the card's traffic limit is reached.
    TrafficLimitReached,
    /// The internet is still unreachable for another reason.
    StillOffline,
}

/// The outcome of a posted login from whether the internet is reachable
/// afterwards and the portal's reply: reachable means connected; otherwise
/// a reply that mentions `Total traffic limit reached!` means the card is
/// spent.
pub fn login_outcome(connected: bool, login_body: &str) -> (r: LoginOutcome)
    ensures
        r == if connected {
            LoginOutcome::Connected
        } else if contains_bytes(encode_utf8(login_body@), encode_utf8("Total traffic limit reached!"@)) {
            LoginOutcome::TrafficLimitReached
        } else {
            LoginOutcome::StillOffline
        },
{
    if connected {
        LoginOutcome::Connected
    } else if text_contains(login_body, "Total traffic limit reached!") {
        LoginOutcome::TrafficLimitReached
    } else {
        LoginOutcome::StillOffline
    }
}

} // verus!
