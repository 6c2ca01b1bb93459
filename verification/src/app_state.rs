//! The state of an editing session: the schema and the data that are open,
//! where they came from, and whether they were changed since.

use crate::models::{ClassicalHierarchy, Filters, Item, TaxonomyData, TaxonomySchema};
use crate::strmap::StrMap;
use crate::text::texts;
use vstd::prelude::*;
use vstd::string::StringExecFns;

verus! {

/// The state of an editing session.
#[derive(Debug, PartialEq, Eq)]
pub struct AppState {
    /// The schema that is open.
    pub schema: Option<TaxonomySchema>,
    /// The data that are open.
    pub data: Option<TaxonomyData>,
    /// The path of the data file.
    pub current_file: Option<String>,
    /// The path of the schema file.
    pub schema_file: Option<String>,
    /// Whether there are changes that were not saved.
    pub dirty: bool,
    /// The position of the selected item.
    pub selected_item: Option<usize>,
    /// The query in force.
    pub filters: Filters,
}

/// The title of the window: the name of the file, or `Untitled`, with a star
/// after it where there are unsaved changes.
pub open spec fn title_text(file_name: Option<Seq<char>>, dirty: bool) -> Seq<char> {
    "Taxonomy Studio - "@ + (match file_name {
        Some(name) => name,
        None => "Untitled"@,
    }) + (if dirty {
        "*"@
    } else {
        ""@
    })
}

/// The title of the window for a file of this name.
pub fn window_title(file_name: Option<&str>, dirty: bool) -> (r: String)
    ensures
        r@ == title_text(
            match file_name {
                Some(name) => Some(name@),
                None => None,
            },
            dirty,
        ),
{
    let mut r = String::from_str("Taxonomy Studio - ");
    match file_name {
        Some(name) => r.append(name),
        None => r.append("Untitled"),
    }
    if dirty {
        r.append("*");
    } else {
        r.append("");
    }
    r
}

impl AppState {
    /// Whether the state is that of a new taxonomy: the default schema with
    /// the root `Root` and the one facet `category`, no items, no file, and
    /// changes to save.
    pub open spec fn is_fresh(&self) -> bool {
        &&& self.schema matches Some(schema) && schema.schema_id@ == "default"@ && schema.title@
            == "Default Schema"@ && (schema.description matches Some(d) && d@
            == "Default taxonomy schema"@) && schema.classical_hierarchy.root@ == "Root"@
            && schema.classical_hierarchy.children is None
            && schema.faceted_dimensions.text_lists() == seq![
            ("category"@, seq!["uncategorized"@]),
        ] && schema.json_schema is None
        &&& self.data matches Some(data) && data.schema@ == "schema.json"@ && data.items@.len()
            == 0 && data.extra.entries@.len() == 0
        &&& self.current_file is None
        &&& self.schema_file is None
        &&& self.dirty
        &&& self.selected_item is None
    }

    /// A session with nothing open.
    pub fn new() -> (r: Self)
        ensures
            r.schema is None,
            r.data is None,
            r.current_file is None,
            r.schema_file is None,
            !r.dirty,
            r.selected_item is None,
            r.filters.genera@.len() == 0,
            r.filters.facets.entries@.len() == 0,
    {
        AppState {
            schema: None,
            data: None,
            current_file: None,
            schema_file: None,
            dirty: false,
            selected_item: None,
            filters: Filters { genera: Vec::new(), facets: StrMap::new() },
        }
    }

    /// Opens a new, empty taxonomy with the default schema. The query in
    /// force stays.
    pub fn create_new(&mut self)
        ensures
            final(self).is_fresh(),
            final(self).filters == old(self).filters,
    {
        let mut dimensions: StrMap<Vec<String>> = StrMap::new();
        let mut values: Vec<String> = Vec::new();
        values.push(String::from_str("uncategorized"));
        dimensions.insert(String::from_str("category"), values);
        proof {
            assert(texts(dimensions.entries@[0].1@) =~= seq!["uncategorized"@]);
            assert(dimensions.text_lists() =~= seq![("category"@, seq!["uncategorized"@])]);
        }
        let default_schema = TaxonomySchema {
            schema_id: String::from_str("default"),
            title: String::from_str("Default Schema"),
            description: Some(String::from_str("Default taxonomy schema")),
            classical_hierarchy: ClassicalHierarchy {
                root: String::from_str("Root"),
                children: None,
            },
            faceted_dimensions: dimensions,
            json_schema: None,
        };
        let default_data = TaxonomyData {
            schema: String::from_str("schema.json"),
            items: Vec::new(),
            extra: StrMap::new(),
        };
        self.schema = Some(default_schema);
        self.data = Some(default_data);
        self.current_file = None;
        self.schema_file = None;
        self.dirty = true;
        self.selected_item = None;
    }

    /// Takes over what was loaded from `path`, with the schema from
    /// `schema_path`: nothing is changed and nothing selected afterwards.
    pub fn loaded(
        &mut self,
        data: TaxonomyData,
        schema: TaxonomySchema,
        path: String,
        schema_path: String,
    )
        ensures
            final(self).data == Some(data),
            final(self).schema == Some(schema),
            final(self).current_file == Some(path),
            final(self).schema_file == Some(schema_path),
            !final(self).dirty,
            final(self).selected_item is None,
            final(self).filters == old(self).filters,
    {
        self.data = Some(data);
        self.schema = Some(schema);
        self.current_file = Some(path);
        self.schema_file = Some(schema_path);
        self.dirty = false;
        self.selected_item = None;
    }

    /// Notes that the data were saved to `path`.
    pub fn saved(&mut self, path: String)
        ensures
            final(self).current_file == Some(path),
            !final(self).dirty,
            final(self).data == old(self).data,
            final(self).schema == old(self).schema,
            final(self).schema_file == old(self).schema_file,
            final(self).selected_item == old(self).selected_item,
            final(self).filters == old(self).filters,
    {
        self.current_file = Some(path);
        self.dirty = false;
    }

    /// Notes that the data were changed.
    pub fn mark_dirty(&mut self)
        ensures
            final(self).dirty,
            final(self).data == old(self).data,
            final(self).schema == old(self).schema,
            final(self).current_file == old(self).current_file,
            final(self).schema_file == old(self).schema_file,
            final(self).selected_item == old(self).selected_item,
            final(self).filters == old(self).filters,
    {
        self.dirty = true;
    }

    /// The items, where data are open.
    pub fn get_items(&self) -> (r: Option<&Vec<Item>>)
        ensures
            match r {
                Some(items) => self.data matches Some(d) && d.items == *items,
                None => self.data is None,
            },
    {
        match &self.data {
            Some(d) => Some(&d.items),
            None => None,
        }
    }

    /// The items, to change them, where data are open. Nothing else of the
    /// session changes through the reference.
    pub fn get_items_mut(&mut self) -> (r: Option<&mut Vec<Item>>)
        ensures
            match r {
                Some(items) => {
                    &&& old(self).data is Some
                    &&& final(self).data is Some
                    &&& *items == old(self).data->0.items
                    &&& final(self).data->0.items == *final(items)
                    &&& final(self).data->0.schema == old(self).data->0.schema
                    &&& final(self).data->0.extra == old(self).data->0.extra
                },
                None => old(self).data is None && final(self).data is None,
            },
            final(self).schema == old(self).schema,
            final(self).current_file == old(self).current_file,
            final(self).schema_file == old(self).schema_file,
            final(self).dirty == old(self).dirty,
            final(self).selected_item == old(self).selected_item,
            final(self).filters == old(self).filters,
    {
        match &mut self.data {
            Some(d) => Some(&mut d.items),
            None => None,
        }
    }

    /// The hierarchy, where a schema is open.
    pub fn get_classical_hierarchy(&self) -> (r: Option<&ClassicalHierarchy>)
        ensures
            match r {
                Some(h) => self.schema matches Some(s) && s.classical_hierarchy == *h,
                None => self.schema is None,
            },
    {
        match &self.schema {
            Some(s) => Some(&s.classical_hierarchy),
            None => None,
        }
    }

    /// The facet dimensions, where a schema is open.
    pub fn get_faceted_dimensions(&self) -> (r: Option<&StrMap<Vec<String>>>)
        ensures
            match r {
                Some(d) => self.schema matches Some(s) && s.faceted_dimensions == *d,
                None => self.schema is None,
            },
    {
        match &self.schema {
            Some(s) => Some(&s.faceted_dimensions),
            None => None,
        }
    }

    /// The item at `index`; none for a negative index, one past the end, or
    /// where no data are open.
    pub fn get_item(&self, index: i32) -> (r: Option<&Item>)
        ensures
            match r {
                Some(item) => self.data matches Some(d) && 0 <= index < d.items@.len()
                    && d.items@[index as int] == *item,
                None => !(self.data matches Some(d) && 0 <= index < d.items@.len()),
            },
    {
        if index < 0 {
            return None;
        }
        match &self.data {
            Some(d) => {
                let i = index as usize;
                if i < d.items.len() {
                    Some(&d.items[i])
                } else {
                    None
                }
            },
            None => None,
        }
    }

    /// The item at `index`, to change it; none for a negative index, one
    /// past the end, or where no data are open. Nothing else of the session
    /// changes through the reference.
    pub fn get_item_mut(&mut self, index: i32) -> (r: Option<&mut Item>)
        ensures
            match r {
                Some(item) => {
                    &&& old(self).data is Some
                    &&& final(self).data is Some
                    &&& 0 <= index < old(self).data->0.items@.len()
                    &&& *item == old(self).data->0.items@[index as int]
                    &&& final(self).data->0.items@ == old(self).data->0.items@.update(
                        index as int,
                        *final(item),
                    )
                    &&& final(self).data->0.schema == old(self).data->0.schema
                    &&& final(self).data->0.extra == old(self).data->0.extra
                },
                None => !(old(self).data is Some && 0 <= index < old(self).data->0.items@.len())
                    && final(self).data == old(self).data,
            },
            final(self).schema == old(self).schema,
            final(self).current_file == old(self).current_file,
            final(self).schema_file == old(self).schema_file,
            final(self).dirty == old(self).dirty,
            final(self).selected_item == old(self).selected_item,
            final(self).filters == old(self).filters,
    {
        if index < 0 {
            return None;
        }
        match &mut self.data {
            Some(d) => {
                let i = index as usize;
                if i < d.items.len() {
                    Some(&mut d.items[i])
                } else {
                    None
                }
            },
            None => None,
        }
    }
}

} // verus!
