//! What the `Persist` derive decides, from the container's and the fields'
//! attributes.

mod attributes;
mod laws;
mod layout;
mod names;

pub use attributes::{
    all_literal, expand_word, id_word, is_option, items_word, spec_all_follows, spec_read_tokens_from, option_word, persist_word, spec_is_option, spec_read_attribute,
    spec_read_attributes, spec_read_tokens, AttributeError, AttributeMeta, Expand, FieldAttribute,
    FieldType, PersistableField, Token,
};
pub use names::{
    collect_duplicates, spec_collect_duplicates, spec_dedup, spec_repeats, spec_text_le,
    spec_texts_of,
};
pub use layout::{
    derive_persist_layout, spec_duplicated, spec_pairs,
    index_word, spec_all_read, spec_candidates, spec_entry_names, spec_entry_views, spec_field,
    spec_id, spec_is_sorted_by_name, spec_named_views, spec_path_style_of, spec_select,
    spec_sorted_by_name, DeriveError, FieldEntry, Member, NamedField, PersistInputReceiver,
    PersistLayout, SerdeField,
};
pub use laws::{law_candidates_are_fields, law_id_is_first_marked_field, law_layout_collections_are_serialized_names, law_layout_fields_are_serialized_names, law_duplicates_are_shared_names, law_duplicates_iff_shared_name, lemma_text_le_antisymmetric, lemma_text_le_transitive, spec_ascending, spec_shared, spec_strictly_ascending, spec_has_repeat, spec_shares_name};
