//! Stapifaction computes where the entities of a static API are written.
//!
//! An entity is described by its path elements, its expand strategy, the
//! handle of the value to serialize and its children; persisting it yields the
//! list of files to write, one per entity that has a value to serialize.
//! The `derive` module decides what the `Persist` derive generates from the
//! attributes of a container and its fields.

mod expand_strategy;
mod laws;
mod path;
mod path_element;
mod path_style;
mod persist;
mod persister;
mod resolvable_path;

pub mod derive;

pub use expand_strategy::{
    is_default_strategy, spec_strategy_of_style, spec_unique_folder_path, ExpandStrategy,
};
pub use laws::{
    law_collection_item_names, law_merge_keeps_path, law_persist_entity_file,
    law_strategy_resolution, lemma_decimal_not_empty, law_path_style_resolves_as_strategy, law_resolve_append,
    law_resolve_concat_up_to_separator, law_persist_files_have_extension,
    law_persist_writes_each_value_once, law_persist_writes_under_base, law_push_associative,
    law_push_onto_empty, law_resolve_concat, lemma_push_keeps_prefix, lemma_resolve_extends,
    lemma_resolve_relative, spec_handles, spec_handles_children, spec_has_extension,
    spec_written_handles,
};
pub use path::{is_absolute, is_separator, push_path, spec_join_all, spec_push};
pub use path_element::{ElementKind, PathElement};
pub use path_style::PathStyle;
pub use persist::{spec_decimal, spec_digit, spec_relative_strategy, Child, Entity};
pub use persister::{
    persist, spec_entity_path, spec_extension, spec_file_path, spec_or, spec_persist,
    spec_persist_children, spec_writes, JsonPersister, Write,
};
pub use resolvable_path::{spec_resolve, spec_texts, ResolvablePath};
