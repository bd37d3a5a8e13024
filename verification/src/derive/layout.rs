use itertools::Itertools;
use vstd::prelude::*;

use super::attributes::{
    is_option, spec_is_option, spec_read_attributes, AttributeError, Expand, FieldAttribute,
    FieldType, PersistableField,
};
use super::laws::{
    law_duplicates_are_shared_names, law_duplicates_iff_shared_name, spec_shared, spec_shares_name,
    spec_strictly_ascending,
};
use super::names::{collect_duplicates, spec_collect_duplicates, spec_text_le, spec_texts_of};
use crate::path_style::PathStyle;

verus! {

/// The container attributes of the derive: `#[persist(path = "..")]`,
/// `#[persist(file_name = "..")]` and `#[persist(as_folders)]`.
#[derive(Debug)]
pub struct PersistInputReceiver {
    /// The path of the entity.
    pub path: Option<String>,
    /// The file name of the path style.
    pub file_name: Option<String>,
    /// Whether the path style puts each child in a folder of its own.
    pub as_folders: bool,
}

/// The member that names a field: an identifier, or an index in a tuple
/// struct.
#[derive(Debug)]
pub enum Member {
    /// A named field.
    Named(String),
    /// A field of a tuple struct, by its index.
    Unnamed(u32),
}

impl Clone for Member {
    fn clone(&self) -> (r: Self)
        ensures
            r == *self,
    {
        match self {
            Member::Named(name) => Member::Named(name.clone()),
            Member::Unnamed(index) => Member::Unnamed(*index),
        }
    }
}

/// A field of the container, as serde sees it.
#[derive(Debug)]
pub struct SerdeField {
    /// The member that names the field.
    pub member: Member,
    /// The name the field is serialized under.
    pub serialize_name: String,
    /// Whether serde skips the field when serializing.
    pub skip_serializing: bool,
    /// The type of the field.
    pub ty: FieldType,
    /// The attributes of the field.
    pub attrs: Vec<FieldAttribute>,
}

/// A field persisted apart: the name it is serialized under, its
/// identifier, and whether it is optional.
#[derive(Debug)]
pub struct FieldEntry {
    /// The name the field is serialized under.
    pub name: String,
    /// The identifier of the field.
    pub ident: String,
    /// Whether the type of the field is an `Option`.
    pub is_option: bool,
}

impl View for FieldEntry {
    type V = (Seq<char>, Seq<char>, bool);

    open spec fn view(&self) -> (Seq<char>, Seq<char>, bool) {
        (self.name@, self.ident@, self.is_option)
    }
}

/// A field persisted apart, in the layout: the name of its path and its
/// identifier.
#[derive(Debug)]
pub struct NamedField {
    /// The name the field is serialized under, which names its path.
    pub name: String,
    /// The identifier of the field.
    pub ident: String,
}

impl View for NamedField {
    type V = (Seq<char>, Seq<char>);

    open spec fn view(&self) -> (Seq<char>, Seq<char>) {
        (self.name@, self.ident@)
    }
}

/// What the derive generates for a container.
#[derive(Debug)]
pub struct PersistLayout {
    /// The path of the entity, from the container attributes.
    pub path: Option<String>,
    /// The member holding the id of the entity.
    pub id: Option<Member>,
    /// The fields persisted as one entity, not optional, by name.
    pub entities: Vec<NamedField>,
    /// The optional fields persisted as one entity, by name.
    pub optional_entities: Vec<NamedField>,
    /// The fields whose items are persisted, by name.
    pub collections: Vec<NamedField>,
    /// The path style of the entity.
    pub path_style: Option<PathStyle>,
}

/// Why the derive refuses a container.
#[derive(Debug)]
pub enum DeriveError {
    /// A field has an outer name-value attribute.
    Attribute(AttributeError),
    /// Several fields persisted as one entity share these names.
    DuplicatedEntities(Vec<String>),
    /// Several fields whose items are persisted share these names.
    DuplicatedCollections(Vec<String>),
}

/// The views of a sequence of entries.
pub open spec fn spec_entry_views(s: Seq<FieldEntry>) -> Seq<(Seq<char>, Seq<char>, bool)> {
    s.map_values(|e: FieldEntry| e@)
}

/// The views of a sequence of named fields.
pub open spec fn spec_named_views(s: Seq<NamedField>) -> Seq<(Seq<char>, Seq<char>)> {
    s.map_values(|e: NamedField| e@)
}

/// `s` is sorted by name.
pub open spec fn spec_sorted_by_name(s: Seq<(Seq<char>, Seq<char>, bool)>) -> bool {
    forall|i: int, j: int| 0 <= i < j < s.len() ==> spec_text_le(s[i].0, s[j].0)
}

/// `sorted` holds the entries of `s`, sorted by name.
pub open spec fn spec_is_sorted_by_name(
    sorted: Seq<(Seq<char>, Seq<char>, bool)>,
    s: Seq<(Seq<char>, Seq<char>, bool)>,
) -> bool {
    &&& sorted.to_multiset() == s.to_multiset()
    &&& spec_sorted_by_name(sorted)
}

/// Sorts `entries` by name with `Itertools::sorted_by_key`, keyed by a
/// copy of the name: the result holds the same entries, in ascending order
/// of names as `Ord` for strings orders them.
#[verifier::external_body]
fn sort_by_name(entries: Vec<FieldEntry>) -> (r: Vec<FieldEntry>)
    ensures
        spec_is_sorted_by_name(spec_entry_views(r@), spec_entry_views(entries@)),
{
    entries.into_iter().sorted_by_key(|e| e.name.clone()).collect()
}

/// Every field's attributes can be read.
pub open spec fn spec_all_read(fields: Seq<SerdeField>) -> bool {
    forall|i: int| 0 <= i < fields.len() ==> (#[trigger] spec_read_attributes(fields[i].attrs@)) is Some
}

/// What the attributes of `field` say of it.
pub open spec fn spec_field(field: SerdeField) -> PersistableField {
    spec_read_attributes(field.attrs@).unwrap()
}

/// The fields expanded as `kind` that are named, in order: their serialized
/// name, identifier and whether they are optional.
pub open spec fn spec_candidates(fields: Seq<SerdeField>, kind: Expand) -> Seq<
    (Seq<char>, Seq<char>, bool),
>
    decreases fields.len(),
{
    if fields.len() == 0 {
        Seq::empty()
    } else {
        let before = spec_candidates(fields.drop_last(), kind);
        let f = fields.last();
        match f.member {
            Member::Named(ident) => if spec_field(f).expand == Some(kind) {
                before.push((f.serialize_name@, ident@, spec_is_option(f.ty)))
            } else {
                before
            },
            Member::Unnamed(_) => before,
        }
    }
}

/// The member of the first field that is serialized, not expanded, and
/// marked as the id.
pub open spec fn spec_id(fields: Seq<SerdeField>) -> Option<Member>
    decreases fields.len(),
{
    if fields.len() == 0 {
        None
    } else {
        match spec_id(fields.drop_last()) {
            Some(m) => Some(m),
            None => {
                let f = fields.last();
                if !f.skip_serializing && spec_field(f).expand is None && spec_field(f).id {
                    Some(f.member)
                } else {
                    None
                }
            },
        }
    }
}

/// The name and identifier of the entries of `s` that are optional, or not,
/// in order.
pub open spec fn spec_select(s: Seq<(Seq<char>, Seq<char>, bool)>, optional: bool) -> Seq<
    (Seq<char>, Seq<char>),
>
    decreases s.len(),
{
    if s.len() == 0 {
        Seq::empty()
    } else {
        let before = spec_select(s.drop_last(), optional);
        if s.last().2 == optional {
            before.push((s.last().0, s.last().1))
        } else {
            before
        }
    }
}

/// The names of the entries of `s`.
pub open spec fn spec_entry_names(s: Seq<(Seq<char>, Seq<char>, bool)>) -> Seq<Seq<char>> {
    s.map_values(|e: (Seq<char>, Seq<char>, bool)| e.0)
}

/// The text `index`.
pub open spec fn index_word() -> Seq<char> {
    seq!['i', 'n', 'd', 'e', 'x']
}

/// The path style of the container: with `as_folders`, a folder for each
/// child, named after the file name or else `index`; otherwise files in one
/// folder named after the file name, when there is one.
pub open spec fn spec_path_style_of(
    receiver: PersistInputReceiver,
    style: Option<PathStyle>,
) -> bool {
    if receiver.as_folders {
        &&& style matches Some(PathStyle::SameFileNameInSeparateFolders(name))
        &&& name@ == match receiver.file_name {
            Some(file_name) => file_name@,
            None => index_word(),
        }
    } else {
        match receiver.file_name {
            Some(file_name) => style matches Some(PathStyle::DifferentFileNameInSameFolder(name))
                && name@ == file_name@,
            None => style is None,
        }
    }
}

/// The name and identifier of each entry of `s`.
pub open spec fn spec_pairs(s: Seq<(Seq<char>, Seq<char>, bool)>) -> Seq<(Seq<char>, Seq<char>)> {
    s.map_values(|e: (Seq<char>, Seq<char>, bool)| (e.0, e.1))
}

/// `names` are the names shared by several entries of `fields` expanded as
/// `kind`, each once, in ascending order.
pub open spec fn spec_duplicated(fields: Seq<SerdeField>, kind: Expand, names: Seq<Seq<char>>) -> bool {
    &&& names.len() > 0
    &&& forall|name: Seq<char>|
        #![trigger names.contains(name)]
        names.contains(name) <==> spec_shared(spec_candidates(fields, kind), name)
    &&& spec_strictly_ascending(names)
}

/// The layout that the derive generates for a container with the
/// attributes `receiver` and the fields `fields`: the fields persisted as
/// one entity and those whose items are persisted, each sorted by name, the
/// id, the path and the path style; or the reason the container is refused:
/// an outer name-value attribute on a field, then names shared by several
/// fields persisted as one entity, then names shared by several fields whose
/// items are persisted.
pub fn derive_persist_layout(receiver: PersistInputReceiver, fields: &Vec<SerdeField>) -> (r:
    Result<PersistLayout, DeriveError>)
    ensures
        match r {
            Err(DeriveError::Attribute(_)) => !spec_all_read(fields@),
            Err(DeriveError::DuplicatedEntities(names)) => {
                &&& spec_all_read(fields@)
                &&& spec_shares_name(spec_candidates(fields@, Expand::Entity))
                &&& spec_duplicated(fields@, Expand::Entity, spec_texts_of(names@))
            },
            Err(DeriveError::DuplicatedCollections(names)) => {
                &&& spec_all_read(fields@)
                &&& !spec_shares_name(spec_candidates(fields@, Expand::Entity))
                &&& spec_shares_name(spec_candidates(fields@, Expand::Items))
                &&& spec_duplicated(fields@, Expand::Items, spec_texts_of(names@))
            },
            Ok(layout) => {
                &&& spec_all_read(fields@)
                &&& !spec_shares_name(spec_candidates(fields@, Expand::Entity))
                &&& !spec_shares_name(spec_candidates(fields@, Expand::Items))
                &&& layout.path == receiver.path
                &&& layout.id == spec_id(fields@)
                &&& spec_path_style_of(receiver, layout.path_style)
                &&& exists|entities: Seq<(Seq<char>, Seq<char>, bool)>|
                    {
                        &&& spec_is_sorted_by_name(
                            entities,
                            spec_candidates(fields@, Expand::Entity),
                        )
                        &&& spec_collect_duplicates(spec_entry_names(entities)).len() == 0
                        &&& spec_named_views(layout.entities@) == spec_select(entities, false)
                        &&& spec_named_views(layout.optional_entities@) == spec_select(
                            entities,
                            true,
                        )
                    }
                &&& exists|collections: Seq<(Seq<char>, Seq<char>, bool)>|
                    {
                        &&& spec_is_sorted_by_name(
                            collections,
                            spec_candidates(fields@, Expand::Items),
                        )
                        &&& spec_collect_duplicates(spec_entry_names(collections)).len() == 0
                        &&& spec_named_views(layout.collections@) == spec_pairs(collections)
                    }
            },
        },
{
    let read = match read_fields(fields) {
        Ok(read) => read,
        Err(e) => return Err(DeriveError::Attribute(e)),
    };
    let id = find_id(fields, &read);

    let entities = sort_by_name(candidates(fields, &read, Expand::Entity));
    let duplicated_entities = collect_duplicates(&entry_names(&entities));
    proof {
        law_duplicates_iff_shared_name(
            spec_entry_views(entities@),
            spec_candidates(fields@, Expand::Entity),
        );
        law_duplicates_are_shared_names(
            spec_entry_views(entities@),
            spec_candidates(fields@, Expand::Entity),
        );
    }
    if duplicated_entities.len() > 0 {
        return Err(DeriveError::DuplicatedEntities(duplicated_entities));
    }
    let ghost sorted_entities = spec_entry_views(entities@);

    let collections = sort_by_name(candidates(fields, &read, Expand::Items));
    let duplicated_collections = collect_duplicates(&entry_names(&collections));
    proof {
        law_duplicates_iff_shared_name(
            spec_entry_views(collections@),
            spec_candidates(fields@, Expand::Items),
        );
        law_duplicates_are_shared_names(
            spec_entry_views(collections@),
            spec_candidates(fields@, Expand::Items),
        );
    }
    if duplicated_collections.len() > 0 {
        assert(spec_texts_of(duplicated_collections@).len() > 0);
        return Err(DeriveError::DuplicatedCollections(duplicated_collections));
    }
    let ghost sorted_collections = spec_entry_views(collections@);

    let optional_entities = select(&entities, true);
    let plain_entities = select(&entities, false);
    let collection_fields = pairs(&collections);

    let path_style = if receiver.as_folders {
        let file_name = match receiver.file_name {
            Some(file_name) => file_name,
            None => {
                let index = String::from_str("index");
                proof {
                    reveal_strlit("index");
                    assert(index@ =~= index_word());
                }
                index
            },
        };
        Some(PathStyle::SameFileNameInSeparateFolders(file_name))
    } else {
        match receiver.file_name {
            Some(file_name) => Some(PathStyle::DifferentFileNameInSameFolder(file_name)),
            None => None,
        }
    };
    let layout = PersistLayout {
        path: receiver.path,
        id,
        entities: plain_entities,
        optional_entities,
        collections: collection_fields,
        path_style,
    };
    assert(spec_named_views(layout.collections@) == spec_pairs(sorted_collections));
    Ok(layout)
}

/// Reads the attributes of every field, stopping at the first refused.
fn read_fields(fields: &Vec<SerdeField>) -> (r: Result<Vec<PersistableField>, AttributeError>)
    ensures
        r is Err <==> !spec_all_read(fields@),
        r matches Ok(read) ==> read@.len() == fields@.len() && forall|j: int|
            0 <= j < fields@.len() ==> read@[j] == spec_field(#[trigger] fields@[j]),
{
    let mut read: Vec<PersistableField> = Vec::new();
    let n = fields.len();
    for i in 0..n
        invariant
            n == fields@.len(),
            read@.len() == i,
            forall|j: int|
                0 <= j < i ==> (#[trigger] spec_read_attributes(fields@[j].attrs@)) is Some,
            forall|j: int| 0 <= j < i ==> read@[j] == spec_field(#[trigger] fields@[j]),
    {
        match PersistableField::from_attributes(&fields[i].attrs) {
            Ok(field) => read.push(field),
            Err(e) => {
                assert(spec_read_attributes(fields@[i as int].attrs@) is None);
                return Err(e);
            },
        }
    }
    Ok(read)
}

/// The member of the first field that is serialized, not expanded, and
/// marked as the id.
fn find_id(fields: &Vec<SerdeField>, read: &Vec<PersistableField>) -> (r: Option<Member>)
    requires
        read@.len() == fields@.len(),
        forall|j: int| 0 <= j < fields@.len() ==> read@[j] == spec_field(#[trigger] fields@[j]),
    ensures
        r == spec_id(fields@),
{
    let n = fields.len();
    for i in 0..n
        invariant
            n == fields@.len(),
            read@.len() == fields@.len(),
            forall|j: int| 0 <= j < fields@.len() ==> read@[j] == spec_field(#[trigger] fields@[j]),
            spec_id(fields@.take(i as int)) is None,
    {
        assert(fields@.take(i + 1).drop_last() =~= fields@.take(i as int));
        assert(read@[i as int] == spec_field(fields@[i as int]));
        if !fields[i].skip_serializing && read[i].expand.is_none() && read[i].id {
            proof {
                lemma_id_found(fields@, (i + 1) as int);
            }
            return Some(fields[i].member.clone());
        }
    }
    assert(fields@.take(n as int) =~= fields@);
    None
}

/// The id found in a prefix is the id.
proof fn lemma_id_found(fields: Seq<SerdeField>, i: int)
    requires
        0 <= i <= fields.len(),
        spec_id(fields.take(i)) is Some,
    ensures
        spec_id(fields) == spec_id(fields.take(i)),
    decreases fields.len() - i,
{
    if i < fields.len() {
        assert(fields.take(i + 1).drop_last() =~= fields.take(i));
        lemma_id_found(fields, i + 1);
    } else {
        assert(fields.take(i) =~= fields);
    }
}

/// The fields expanded as `kind` that are named, in order.
fn candidates(fields: &Vec<SerdeField>, read: &Vec<PersistableField>, kind: Expand) -> (r: Vec<
    FieldEntry,
>)
    requires
        read@.len() == fields@.len(),
        forall|j: int| 0 <= j < fields@.len() ==> read@[j] == spec_field(#[trigger] fields@[j]),
    ensures
        spec_entry_views(r@) == spec_candidates(fields@, kind),
{
    let mut entries: Vec<FieldEntry> = Vec::new();
    let n = fields.len();
    for i in 0..n
        invariant
            n == fields@.len(),
            read@.len() == fields@.len(),
            forall|j: int| 0 <= j < fields@.len() ==> read@[j] == spec_field(#[trigger] fields@[j]),
            spec_entry_views(entries@) == spec_candidates(fields@.take(i as int), kind),
    {
        assert(fields@.take(i + 1).drop_last() =~= fields@.take(i as int));
        assert(read@[i as int] == spec_field(fields@[i as int]));
        let field = &fields[i];
        if let Member::Named(ident) = &field.member {
            if read[i].expand == Some(kind) {
                entries.push(
                    FieldEntry {
                        name: field.serialize_name.clone(),
                        ident: ident.clone(),
                        is_option: is_option(&field.ty),
                    },
                );
            }
        }
        assert(spec_entry_views(entries@) =~= spec_candidates(fields@.take(i + 1), kind));
    }
    assert(fields@.take(n as int) =~= fields@);
    entries
}

/// The names of the entries.
fn entry_names(entries: &Vec<FieldEntry>) -> (r: Vec<String>)
    ensures
        spec_texts_of(r@) == spec_entry_names(spec_entry_views(entries@)),
{
    let mut names: Vec<String> = Vec::new();
    let n = entries.len();
    for i in 0..n
        invariant
            n == entries@.len(),
            spec_texts_of(names@) == spec_entry_names(spec_entry_views(entries@.take(i as int))),
    {
        let ghost before = names@;
        names.push(entries[i].name.clone());
        assert(spec_texts_of(names@) =~= spec_texts_of(before).push(entries@[i as int].name@));
        assert(spec_entry_names(spec_entry_views(entries@.take(i + 1))) =~= spec_entry_names(
            spec_entry_views(entries@.take(i as int)),
        ).push(entries@[i as int].name@));
    }
    assert(entries@.take(n as int) =~= entries@);
    names
}

/// The name and identifier of the entries that are optional, or not, in
/// order.
fn select(entries: &Vec<FieldEntry>, optional: bool) -> (r: Vec<NamedField>)
    ensures
        spec_named_views(r@) == spec_select(spec_entry_views(entries@), optional),
{
    let mut selected: Vec<NamedField> = Vec::new();
    let n = entries.len();
    for i in 0..n
        invariant
            n == entries@.len(),
            spec_named_views(selected@) == spec_select(
                spec_entry_views(entries@.take(i as int)),
                optional,
            ),
    {
        assert(spec_entry_views(entries@.take(i + 1)).drop_last() =~= spec_entry_views(
            entries@.take(i as int),
        ));
        if entries[i].is_option == optional {
            selected.push(
                NamedField { name: entries[i].name.clone(), ident: entries[i].ident.clone() },
            );
        }
        assert(spec_named_views(selected@) =~= spec_select(
            spec_entry_views(entries@.take(i + 1)),
            optional,
        ));
    }
    assert(entries@.take(n as int) =~= entries@);
    selected
}

/// The name and identifier of each entry.
fn pairs(entries: &Vec<FieldEntry>) -> (r: Vec<NamedField>)
    ensures
        spec_named_views(r@) == spec_pairs(spec_entry_views(entries@)),
{
    let mut all: Vec<NamedField> = Vec::new();
    let n = entries.len();
    for i in 0..n
        invariant
            n == entries@.len(),
            spec_named_views(all@) == spec_pairs(spec_entry_views(entries@.take(i as int))),
    {
        let ghost before = all@;
        all.push(NamedField { name: entries[i].name.clone(), ident: entries[i].ident.clone() });
        assert(spec_named_views(all@) =~= spec_named_views(before).push(
            (entries@[i as int].name@, entries@[i as int].ident@),
        ));
        assert(spec_pairs(spec_entry_views(entries@.take(i + 1))) =~= spec_pairs(
            spec_entry_views(entries@.take(i as int)),
        ).push((entries@[i as int].name@, entries@[i as int].ident@)));
    }
    assert(entries@.take(n as int) =~= entries@);
    all
}

} // verus!
