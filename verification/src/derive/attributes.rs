use vstd::prelude::*;

verus! {

/// The text `persist`.
pub open spec fn persist_word() -> Seq<char> {
    seq!['p', 'e', 'r', 's', 'i', 's', 't']
}

/// The text `id`.
pub open spec fn id_word() -> Seq<char> {
    seq!['i', 'd']
}

/// The text `items`.
pub open spec fn items_word() -> Seq<char> {
    seq!['i', 't', 'e', 'm', 's']
}

/// The text `expand`.
pub open spec fn expand_word() -> Seq<char> {
    seq!['e', 'x', 'p', 'a', 'n', 'd']
}

/// The text of the string literal `"all"`, quotes included.
pub open spec fn all_literal() -> Seq<char> {
    seq!['"', 'a', 'l', 'l', '"']
}

/// The text `Option`.
pub open spec fn option_word() -> Seq<char> {
    seq!['O', 'p', 't', 'i', 'o', 'n']
}

/// Whether `text` holds exactly `word`.
fn holds_word(text: &String, word: &str) -> (r: bool)
    ensures
        r == (text@ == word@),
{
    let word = String::from_str(word);
    *text == word
}

/// How a field is expanded into a child.
#[derive(Debug, Clone, Copy, PartialEq, Eq, Structural)]
pub enum Expand {
    /// The field is persisted as one entity.
    Entity,
    /// Each item of the field is persisted as an entity.
    Items,
}

impl Default for Expand {
    fn default() -> (r: Self)
        ensures
            r == Expand::Entity,
    {
        Expand::Entity
    }
}

/// One token of the arguments of an attribute written as a list.
#[derive(Debug)]
pub enum Token {
    /// An identifier, by its text.
    Ident(String),
    /// A punctuation character.
    Punct(char),
    /// A literal, by its text as written (a string literal with its quotes).
    Literal(String),
    /// Any other token: a group.
    Other,
}

/// The meta of an attribute.
#[derive(Debug)]
pub enum AttributeMeta {
    /// A path, as in `#[persist]`: its identifier when it is one.
    Path(Option<String>),
    /// A list, as in `#[persist(id)]`: the identifier of its path when it is
    /// one, and its top-level tokens.
    List(Option<String>, Vec<Token>),
    /// A name-value pair, as in `#[doc = "..."]`.
    NameValue,
}

/// An attribute on a field.
#[derive(Debug)]
pub struct FieldAttribute {
    /// Whether the attribute is an outer one (`#[..]` rather than `#![..]`).
    pub outer: bool,
    /// The meta of the attribute.
    pub meta: AttributeMeta,
}

/// The error met when reading the attributes of a field: an outer
/// name-value attribute.
#[derive(Debug, Clone, Copy, PartialEq, Eq, Structural)]
pub enum AttributeError {
    /// "Unexpected name-value pair".
    UnexpectedNameValue,
}

/// What the attributes of a field say of it.
#[derive(Debug, Clone, Copy, PartialEq, Eq, Structural)]
pub struct PersistableField {
    /// The field is the id of the entity.
    pub id: bool,
    /// How the field is expanded, if it is persisted apart.
    pub expand: Option<Expand>,
}

impl Default for PersistableField {
    fn default() -> (r: Self)
        ensures
            r == (PersistableField { id: false, expand: None }),
    {
        PersistableField { id: false, expand: None }
    }
}

/// The tokens from `i` on are `= "all"`, as in `expand = "all"`.
pub open spec fn spec_all_follows(tokens: Seq<Token>, i: int) -> bool {
    &&& i + 1 < tokens.len()
    &&& tokens[i] matches Token::Punct(c) && c == '='
    &&& tokens[i + 1] matches Token::Literal(l) && l@ == all_literal()
}

/// The field after reading the tokens of a `persist` list from position
/// `i` on: `id` makes it the id; `items`, and `expand` followed by
/// `= "all"`, expand its items; `expand` otherwise expands it as one entity;
/// other tokens are ignored.
pub open spec fn spec_read_tokens_from(field: PersistableField, tokens: Seq<Token>, i: int) -> PersistableField
    decreases tokens.len() - i,
{
    if i < 0 || i >= tokens.len() {
        field
    } else {
        match tokens[i] {
            Token::Ident(t) => if t@ == id_word() {
                spec_read_tokens_from(PersistableField { id: true, ..field }, tokens, i + 1)
            } else if t@ == items_word() {
                spec_read_tokens_from(
                    PersistableField { expand: Some(Expand::Items), ..field },
                    tokens,
                    i + 1,
                )
            } else if t@ == expand_word() {
                if spec_all_follows(tokens, i + 1) {
                    spec_read_tokens_from(
                        PersistableField { expand: Some(Expand::Items), ..field },
                        tokens,
                        i + 3,
                    )
                } else {
                    spec_read_tokens_from(
                        PersistableField { expand: Some(Expand::Entity), ..field },
                        tokens,
                        i + 1,
                    )
                }
            } else {
                spec_read_tokens_from(field, tokens, i + 1)
            },
            _ => spec_read_tokens_from(field, tokens, i + 1),
        }
    }
}

/// The field after reading all the tokens of a `persist` list.
pub open spec fn spec_read_tokens(field: PersistableField, tokens: Seq<Token>) -> PersistableField {
    spec_read_tokens_from(field, tokens, 0)
}

/// Reads the tokens of a `persist` list.
fn read_tokens(field: PersistableField, tokens: &Vec<Token>) -> (r: PersistableField)
    ensures
        r == spec_read_tokens(field, tokens@),
{
    proof {
        reveal_strlit("id");
        reveal_strlit("items");
        reveal_strlit("expand");
        reveal_strlit("\"all\"");
        assert("id"@ =~= id_word());
        assert("items"@ =~= items_word());
        assert("expand"@ =~= expand_word());
        assert("\"all\""@ =~= all_literal());
    }
    let ghost start = field;
    let mut field = field;
    let n = tokens.len();
    let mut i: usize = 0;
    while i < n
        invariant
            n == tokens@.len(),
            i <= n,
            spec_read_tokens_from(field, tokens@, i as int) == spec_read_tokens(start, tokens@),
            "id"@ == id_word(),
            "items"@ == items_word(),
            "expand"@ == expand_word(),
            "\"all\""@ == all_literal(),
        decreases n - i,
    {
        let mut step: usize = 1;
        if let Token::Ident(t) = &tokens[i] {
            if holds_word(t, "id") {
                field.id = true;
            } else if holds_word(t, "items") {
                field.expand = Some(Expand::Items);
            } else if holds_word(t, "expand") {
                if all_follows(tokens, i + 1) {
                    field.expand = Some(Expand::Items);
                    step = 3;
                } else {
                    field.expand = Some(Expand::Entity);
                }
            }
        }
        i = i + step;
    }
    field
}

/// Whether the tokens from `i` on are `= "all"`.
fn all_follows(tokens: &Vec<Token>, i: usize) -> (r: bool)
    requires
        i <= tokens@.len(),
        "\"all\""@ == all_literal(),
    ensures
        r == spec_all_follows(tokens@, i as int),
{
    if tokens.len() - i < 2 {
        return false;
    }
    let is_equals = match &tokens[i] {
        Token::Punct(c) => *c == '=',
        _ => false,
    };
    let is_all = match &tokens[i + 1] {
        Token::Literal(l) => holds_word(l, "\"all\""),
        _ => false,
    };
    is_equals && is_all
}

/// The field after reading the attribute `attr`, or `None` when the
/// attribute is refused: inner attributes and attributes other than
/// `persist` are ignored, except that every outer name-value attribute is
/// refused; `#[persist]` expands the field as one entity; `#[persist(..)]`
/// reads its tokens.
pub open spec fn spec_read_attribute(field: PersistableField, attr: FieldAttribute) -> Option<
    PersistableField,
> {
    if !attr.outer {
        Some(field)
    } else {
        match attr.meta {
            AttributeMeta::Path(Some(ident)) => if ident@ == persist_word() {
                Some(PersistableField { expand: Some(Expand::Entity), ..field })
            } else {
                Some(field)
            },
            AttributeMeta::Path(None) => Some(field),
            AttributeMeta::List(Some(ident), tokens) => if ident@ == persist_word() {
                Some(spec_read_tokens(field, tokens@))
            } else {
                Some(field)
            },
            AttributeMeta::List(None, _) => Some(field),
            AttributeMeta::NameValue => None,
        }
    }
}

/// The field read from the attributes `attrs` in order, starting with no
/// id and no expansion, or `None` when one of them is refused.
pub open spec fn spec_read_attributes(attrs: Seq<FieldAttribute>) -> Option<PersistableField>
    decreases attrs.len(),
{
    if attrs.len() == 0 {
        Some(PersistableField { id: false, expand: None })
    } else {
        match spec_read_attributes(attrs.drop_last()) {
            Some(field) => spec_read_attribute(field, attrs.last()),
            None => None,
        }
    }
}

impl PersistableField {
    /// Reads what the attributes of a field say of it.
    pub fn from_attributes(attrs: &Vec<FieldAttribute>) -> (r: Result<
        PersistableField,
        AttributeError,
    >)
        ensures
            r matches Ok(field) ==> spec_read_attributes(attrs@) == Some(field),
            r is Err <==> spec_read_attributes(attrs@) is None,
    {
        proof {
            reveal_strlit("persist");
            assert("persist"@ =~= persist_word());
        }
        let mut field = PersistableField::default();
        let n = attrs.len();
        for i in 0..n
            invariant
                n == attrs@.len(),
                spec_read_attributes(attrs@.take(i as int)) == Some(field),
                "persist"@ == persist_word(),
        {
            assert(attrs@.take(i + 1).drop_last() =~= attrs@.take(i as int));
            let attr = &attrs[i];
            if attr.outer {
                match &attr.meta {
                    AttributeMeta::Path(ident) => {
                        if let Some(ident) = ident {
                            if holds_word(ident, "persist") {
                                field.expand = Some(Expand::Entity);
                            }
                        }
                    },
                    AttributeMeta::List(ident, tokens) => {
                        if let Some(ident) = ident {
                            if holds_word(ident, "persist") {
                                field = read_tokens(field, tokens);
                            }
                        }
                    },
                    AttributeMeta::NameValue => {
                        proof {
                            lemma_refused_stays_refused(attrs@, (i + 1) as int);
                            assert(attrs@.take(n as int) =~= attrs@);
                        }
                        return Err(AttributeError::UnexpectedNameValue);
                    },
                }
            }
        }
        assert(attrs@.take(n as int) =~= attrs@);
        Ok(field)
    }
}

/// Once an attribute is refused, the attributes that follow it are refused
/// too.
proof fn lemma_refused_stays_refused(attrs: Seq<FieldAttribute>, i: int)
    requires
        0 <= i <= attrs.len(),
        spec_read_attributes(attrs.take(i)) is None,
    ensures
        spec_read_attributes(attrs) is None,
    decreases attrs.len() - i,
{
    if i < attrs.len() {
        assert(attrs.take(i + 1).drop_last() =~= attrs.take(i));
        lemma_refused_stays_refused(attrs, i + 1);
    } else {
        assert(attrs.take(i) =~= attrs);
    }
}

/// The type of a field: a path, by the identifiers of its segments, or any
/// other type.
#[derive(Debug)]
pub enum FieldType {
    /// A path type such as `std::option::Option<T>`, by its segments'
    /// identifiers.
    Path(Vec<String>),
    /// Any other type.
    Other,
}

/// A field is optional when its type is a path whose last segment is
/// `Option`.
pub open spec fn spec_is_option(ty: FieldType) -> bool {
    match ty {
        FieldType::Path(segments) => segments@.len() > 0 && segments@.last()@ == option_word(),
        FieldType::Other => false,
    }
}

/// Whether a field of type `ty` is optional.
pub fn is_option(ty: &FieldType) -> (r: bool)
    ensures
        r == spec_is_option(*ty),
{
    proof {
        reveal_strlit("Option");
        assert("Option"@ =~= option_word());
    }
    match ty {
        FieldType::Path(segments) => {
            let n = segments.len();
            if n == 0 {
                false
            } else {
                holds_word(&segments[n - 1], "Option")
            }
        },
        FieldType::Other => false,
    }
}

} // verus!
