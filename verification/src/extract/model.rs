//! Tables of system information.

use crate::row::{duplicate_pairs, pair_views, Row, RowView};
use crate::rules::model::{Field, FieldView};
use crate::text::{duplicate_all, views, Duplicate};
use vstd::prelude::*;

verus! {

/// The disk that a row of a storage table is about. The number of a disk counts
/// within its source file only.
#[derive(Clone, Debug)]
pub struct StorageContext {
    pub device: usize,
    pub pool: String,
    pub label: String,
    pub raid: String,
    /// The members of the disk's own record.
    pub details: Vec<(String, String)>,
}

/// What a `StorageContext` holds.
#[verifier::ext_equal]
pub ghost struct StorageContextView {
    pub device: usize,
    pub pool: Seq<char>,
    pub label: Seq<char>,
    pub raid: Seq<char>,
    pub details: Seq<(Seq<char>, Seq<char>)>,
}

impl View for StorageContext {
    type V = StorageContextView;

    open spec fn view(&self) -> StorageContextView {
        StorageContextView {
            device: self.device,
            pool: self.pool@,
            label: self.label@,
            raid: self.raid@,
            details: pair_views(self.details@),
        }
    }
}

impl Duplicate for StorageContext {
    fn duplicate(&self) -> (r: Self) {
        StorageContext {
            device: self.device,
            pool: self.pool.clone(),
            label: self.label.clone(),
            raid: self.raid.clone(),
            details: duplicate_pairs(&self.details),
        }
    }
}

/// A table of system information.
#[derive(Clone, Debug)]
pub struct Table {
    pub id: String,
    pub name: String,
    pub group: String,
    pub view: String,
    pub fields: Vec<Field>,
    pub rows: Vec<Row>,
    pub storage: Vec<StorageContext>,
    /// The whole source, where the table lists block devices.
    pub raw_text: String,
    pub source: String,
    pub warning: String,
}

/// What a `Table` holds.
#[verifier::ext_equal]
pub ghost struct TableView {
    pub id: Seq<char>,
    pub name: Seq<char>,
    pub group: Seq<char>,
    pub view: Seq<char>,
    pub fields: Seq<FieldView>,
    pub rows: Seq<RowView>,
    pub storage: Seq<StorageContextView>,
    pub raw_text: Seq<char>,
    pub source: Seq<char>,
    pub warning: Seq<char>,
}

impl View for Table {
    type V = TableView;

    open spec fn view(&self) -> TableView {
        TableView {
            id: self.id@,
            name: self.name@,
            group: self.group@,
            view: self.view@,
            fields: views(self.fields@),
            rows: views(self.rows@),
            storage: views(self.storage@),
            raw_text: self.raw_text@,
            source: self.source@,
            warning: self.warning@,
        }
    }
}

impl Duplicate for Table {
    fn duplicate(&self) -> (r: Self) {
        Table {
            id: self.id.clone(),
            name: self.name.clone(),
            group: self.group.clone(),
            view: self.view.clone(),
            fields: duplicate_all(&self.fields),
            rows: duplicate_all(&self.rows),
            storage: duplicate_all(&self.storage),
            raw_text: self.raw_text.clone(),
            source: self.source.clone(),
            warning: self.warning.clone(),
        }
    }
}

} // verus!
