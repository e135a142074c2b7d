//! A table of news items held column by column, and its conversion into one
//! message per row.

use crate::row::{
    classify, classify_text, decode_row_model, encode_row, lemma_decode_encode,
    serialize_hackernews_row, DecodeError, Row, RowModel, RowType,
};
use vstd::prelude::*;
use vstd::utf8::encode_utf8;

verus! {

/// The five fields of a table, in the order in which they are looked at.
#[derive(Clone, Copy, Debug, PartialEq, Eq, Structural)]
pub enum FieldName {
    Id,
    Time,
    Type,
    Title,
    Score,
}

impl FieldName {
    /// The name of the field's column in the source.
    pub open spec fn column_name(self) -> Seq<char> {
        match self {
            FieldName::Id => "id"@,
            FieldName::Time => "time"@,
            FieldName::Type => "type"@,
            FieldName::Title => "title"@,
            FieldName::Score => "score"@,
        }
    }

    /// The name of the field's column in the source.
    pub fn column(self) -> (name: &'static str)
        ensures
            name@ == self.column_name(),
    {
        match self {
            FieldName::Id => "id",
            FieldName::Time => "time",
            FieldName::Type => "type",
            FieldName::Title => "title",
            FieldName::Score => "score",
        }
    }
}

/// Why a table cannot be built or converted.
#[derive(Clone, Copy, Debug, PartialEq, Eq, Structural)]
pub enum ConvertError {
    /// The columns are not of one height.
    SchemaMismatch,
    /// The column of this field does not store what the field needs: integers
    /// for the identifier, the timestamp and the score, text for the type tag
    /// and the title.
    ColumnType(FieldName),
    /// The row with this index has no value in a field that must have one.
    MissingRequiredField { field: FieldName, row: usize },
}

/// One column as it is stored. A cell of either kind may be absent.
#[derive(Clone, Debug, PartialEq, Eq)]
pub enum Column {
    /// 64-bit integers.
    Int(Vec<Option<i64>>),
    /// Text.
    Text(Vec<Option<String>>),
    /// A column of some other storage type, of which only the height is kept.
    Other(usize),
}

/// What a `Column` stands for.
pub enum ColumnModel {
    Int(Seq<Option<i64>>),
    Text(Seq<Option<Seq<char>>>),
    Other(nat),
}

/// The cells of a text column, each by the characters it holds.
pub open spec fn text_cells(cells: Seq<Option<String>>) -> Seq<Option<Seq<char>>> {
    Seq::new(
        cells.len(),
        |i: int|
            match cells[i] {
                Some(text) => Some(text@),
                None => None,
            },
    )
}

impl View for Column {
    type V = ColumnModel;

    open spec fn view(&self) -> ColumnModel {
        match self {
            Column::Int(cells) => ColumnModel::Int(cells@),
            Column::Text(cells) => ColumnModel::Text(text_cells(cells@)),
            Column::Other(height) => ColumnModel::Other(*height as nat),
        }
    }
}

impl ColumnModel {
    /// The number of cells.
    pub open spec fn height(self) -> nat {
        match self {
            ColumnModel::Int(cells) => cells.len(),
            ColumnModel::Text(cells) => cells.len(),
            ColumnModel::Other(height) => height,
        }
    }
}

impl Column {
    /// The number of cells.
    pub fn height(&self) -> (n: usize)
        ensures
            n == self@.height(),
    {
        match self {
            Column::Int(cells) => cells.len(),
            Column::Text(cells) => cells.len(),
            Column::Other(height) => *height,
        }
    }
}

/// The low 64 bits of `value` in two's complement, as an unsigned number.
pub open spec fn unsigned64(value: i64) -> u64 {
    if value >= 0 {
        value as u64
    } else {
        (value + 0x1_0000_0000_0000_0000) as u64
    }
}

/// The low 32 bits of `value` in two's complement, as an unsigned number.
pub open spec fn unsigned32(value: i64) -> u32 {
    (value % 0x1_0000_0000) as u32
}

/// The low 64 bits of `value` in two's complement, as an unsigned number.
pub fn to_unsigned64(value: i64) -> (r: u64)
    ensures
        r == unsigned64(value),
{
    if value >= 0 {
        value as u64
    } else {
        let shifted: i64 = (value + i64::MAX) + 1;
        shifted as u64 + 0x8000_0000_0000_0000
    }
}

/// The low 32 bits of `value` in two's complement, as an unsigned number.
pub fn to_unsigned32(value: i64) -> (r: u32)
    ensures
        r == unsigned32(value),
{
    let wide = to_unsigned64(value);
    assert(wide % 0x1_0000_0000 == value % 0x1_0000_0000) by {
        if value < 0 {
            vstd::arithmetic::div_mod::lemma_mod_multiples_vanish(
                0x1_0000_0000,
                value as int,
                0x1_0000_0000,
            );
        }
    }
    (wide % 0x1_0000_0000) as u32
}

/// What a `Table` stands for: its five columns.
pub struct TableModel {
    pub id: ColumnModel,
    pub time: ColumnModel,
    pub row_type: ColumnModel,
    pub title: ColumnModel,
    pub score: ColumnModel,
}

impl TableModel {
    /// The number of rows.
    pub open spec fn height(self) -> nat {
        self.id.height()
    }

    /// Whether the columns are of one height, so that the cells with one
    /// index make up a row.
    pub open spec fn aligned(self) -> bool {
        &&& self.time.height() == self.id.height()
        &&& self.row_type.height() == self.id.height()
        &&& self.title.height() == self.id.height()
        &&& self.score.height() == self.id.height()
    }

    /// The first field whose column does not store what the field needs.
    pub open spec fn type_fault(self) -> Option<FieldName> {
        if !(self.id is Int) {
            Some(FieldName::Id)
        } else if !(self.time is Int) {
            Some(FieldName::Time)
        } else if !(self.row_type is Text) {
            Some(FieldName::Type)
        } else if !(self.title is Text) {
            Some(FieldName::Title)
        } else if !(self.score is Int) {
            Some(FieldName::Score)
        } else {
            None
        }
    }

    /// The item in row `i`: an absent timestamp or score counts as 0, an absent
    /// title as the empty text; the identifier and the type tag must be there.
    pub open spec fn row(self, i: int) -> Result<RowModel, ConvertError>
        recommends
            self.aligned(),
            0 <= i < self.height(),
    {
        match self.type_fault() {
            Some(field) => Err(ConvertError::ColumnType(field)),
            None => match (self.id->Int_0[i], self.row_type->Text_0[i]) {
                (None, _) => Err(
                    ConvertError::MissingRequiredField { field: FieldName::Id, row: i as usize },
                ),
                (Some(_), None) => Err(
                    ConvertError::MissingRequiredField { field: FieldName::Type, row: i as usize },
                ),
                (Some(id), Some(tag)) => Ok(
                    RowModel {
                        id: unsigned32(id),
                        timestamp: match self.time->Int_0[i] {
                            Some(time) => unsigned64(time),
                            None => 0,
                        },
                        row_type: classify_text(tag),
                        title: match self.title->Text_0[i] {
                            Some(title) => title,
                            None => Seq::empty(),
                        },
                        score: match self.score->Int_0[i] {
                            Some(score) => unsigned32(score),
                            None => 0,
                        },
                    },
                ),
            },
        }
    }

    /// The messages of the first `n` rows, in the order of the rows, or the
    /// error of the first row among them that has one.
    pub open spec fn messages_up_to(self, n: nat) -> Result<Seq<Seq<u8>>, ConvertError>
        recommends
            self.aligned(),
            n <= self.height(),
        decreases n,
    {
        if n == 0 {
            Ok(Seq::empty())
        } else {
            match self.messages_up_to((n - 1) as nat) {
                Err(e) => Err(e),
                Ok(messages) => match self.row(n - 1) {
                    Err(e) => Err(e),
                    Ok(row) => Ok(messages.push(encode_row(row))),
                },
            }
        }
    }

    /// The messages of the table: one for each row, in the order of the rows.
    pub open spec fn messages(self) -> Result<Seq<Seq<u8>>, ConvertError>
        recommends
            self.aligned(),
    {
        match self.type_fault() {
            Some(field) => Err(ConvertError::ColumnType(field)),
            None => self.messages_up_to(self.height()),
        }
    }
}

/// The first error among the rows stands for the table: where the rows before
/// `i` have their messages and row `i` has none, neither has any longer run of
/// rows.
pub proof fn lemma_error_persists(table: TableModel, i: nat, n: nat)
    requires
        table.aligned(),
        i < n <= table.height(),
        table.messages_up_to(i) is Ok,
        table.row(i as int) is Err,
    ensures
        table.messages_up_to(n) == Err::<Seq<Seq<u8>>, ConvertError>(
            table.row(i as int)->Err_0,
        ),
    decreases n,
{
    if n > i + 1 {
        lemma_error_persists(table, i, (n - 1) as nat);
    }
}

/// The messages held in a vector, each by its bytes.
pub open spec fn message_views(messages: Seq<Vec<u8>>) -> Seq<Seq<u8>> {
    Seq::new(messages.len(), |i: int| messages[i]@)
}

/// A table of news items: five columns of one height. The cells with index
/// `i` make up row `i`.
#[derive(Debug, PartialEq, Eq)]
pub struct Table {
    id: Column,
    time: Column,
    row_type: Column,
    title: Column,
    score: Column,
}

impl View for Table {
    type V = TableModel;

    closed spec fn view(&self) -> TableModel {
        TableModel {
            id: self.id@,
            time: self.time@,
            row_type: self.row_type@,
            title: self.title@,
            score: self.score@,
        }
    }
}

impl Table {
    #[verifier::type_invariant]
    spec fn aligned(self) -> bool {
        self@.aligned()
    }

    /// Puts five columns together. They must be of one height.
    pub fn new(id: Column, time: Column, row_type: Column, title: Column, score: Column) -> (r:
        Result<Table, ConvertError>)
        ensures
            match r {
                Ok(table) => {
                    &&& table@ == (TableModel {
                        id: id@,
                        time: time@,
                        row_type: row_type@,
                        title: title@,
                        score: score@,
                    })
                    &&& table@.aligned()
                },
                Err(e) => {
                    &&& e == ConvertError::SchemaMismatch
                    &&& !(TableModel {
                        id: id@,
                        time: time@,
                        row_type: row_type@,
                        title: title@,
                        score: score@,
                    }).aligned()
                },
            },
    {
        let height = id.height();
        if time.height() != height || row_type.height() != height || title.height() != height
            || score.height() != height {
            return Err(ConvertError::SchemaMismatch);
        }
        Ok(Table { id, time, row_type, title, score })
    }

    /// The number of rows.
    pub fn height(&self) -> (n: usize)
        ensures
            n == self@.height(),
            self@.aligned(),
    {
        proof {
            use_type_invariant(self);
        }
        self.id.height()
    }

    /// The first field whose column does not store what the field needs.
    pub fn type_fault(&self) -> (r: Option<FieldName>)
        ensures
            r == self@.type_fault(),
    {
        if !matches!(self.id, Column::Int(_)) {
            Some(FieldName::Id)
        } else if !matches!(self.time, Column::Int(_)) {
            Some(FieldName::Time)
        } else if !matches!(self.row_type, Column::Text(_)) {
            Some(FieldName::Type)
        } else if !matches!(self.title, Column::Text(_)) {
            Some(FieldName::Title)
        } else if !matches!(self.score, Column::Int(_)) {
            Some(FieldName::Score)
        } else {
            None
        }
    }

    /// The item in row `i`.
    pub fn row(&self, i: usize) -> (r: Result<Row, ConvertError>)
        requires
            i < self@.height(),
        ensures
            match r {
                Ok(row) => self@.row(i as int) == Ok::<RowModel, ConvertError>(row@),
                Err(e) => self@.row(i as int) == Err::<RowModel, ConvertError>(e),
            },
    {
        proof {
            use_type_invariant(self);
        }
        let ids = match &self.id {
            Column::Int(cells) => cells,
            _ => { return Err(ConvertError::ColumnType(FieldName::Id)); },
        };
        let times = match &self.time {
            Column::Int(cells) => cells,
            _ => { return Err(ConvertError::ColumnType(FieldName::Time)); },
        };
        let tags = match &self.row_type {
            Column::Text(cells) => cells,
            _ => { return Err(ConvertError::ColumnType(FieldName::Type)); },
        };
        let titles = match &self.title {
            Column::Text(cells) => cells,
            _ => { return Err(ConvertError::ColumnType(FieldName::Title)); },
        };
        let scores = match &self.score {
            Column::Int(cells) => cells,
            _ => { return Err(ConvertError::ColumnType(FieldName::Score)); },
        };
        let id = match ids[i] {
            Some(id) => to_unsigned32(id),
            None => {
                return Err(ConvertError::MissingRequiredField { field: FieldName::Id, row: i });
            },
        };
        let row_type = match &tags[i] {
            Some(tag) => classify(tag.as_str()),
            None => {
                return Err(ConvertError::MissingRequiredField { field: FieldName::Type, row: i });
            },
        };
        let timestamp = match times[i] {
            Some(time) => to_unsigned64(time),
            None => 0,
        };
        let title = match &titles[i] {
            Some(title) => title.clone(),
            None => String::new(),
        };
        let score = match scores[i] {
            Some(score) => to_unsigned32(score),
            None => 0,
        };
        Ok(Row { id, timestamp, row_type, title, score })
    }
}

/// Converts a table into its messages: one for each row, in the order of the
/// rows.
pub fn frame_into_protobuf(table: Table) -> (r: Result<Vec<Vec<u8>>, ConvertError>)
    ensures
        match r {
            Ok(messages) => table@.messages() == Ok::<Seq<Seq<u8>>, ConvertError>(
                message_views(messages@),
            ),
            Err(e) => table@.messages() == Err::<Seq<Seq<u8>>, ConvertError>(e),
        },
{
    let height = table.height();
    let mut messages: Vec<Vec<u8>> = Vec::new();
    match table.type_fault() {
        Some(field) => { return Err(ConvertError::ColumnType(field)); },
        None => {},
    }
    assert(message_views(messages@) =~= Seq::<Seq<u8>>::empty());
    let mut i: usize = 0;
    while i < height
        invariant
            table@.aligned(),
            height == table@.height(),
            i <= height,
            table@.type_fault() is None,
            table@.messages_up_to(i as nat) == Ok::<Seq<Seq<u8>>, ConvertError>(
                message_views(messages@),
            ),
        decreases height - i,
    {
        let row = match table.row(i) {
            Ok(row) => row,
            Err(e) => {
                proof {
                    lemma_error_persists(table@, i as nat, height as nat);
                }
                return Err(e);
            },
        };
        let message = serialize_hackernews_row(row);
        let ghost before = message_views(messages@);
        messages.push(message);
        assert(message_views(messages@) =~= before.push(message@));
        i += 1;
    }
    Ok(messages)
}

/// Where a run of rows has its messages, there is one message for each row
/// of the run, and it is the message of that row.
pub proof fn lemma_messages_up_to(table: TableModel, n: nat, i: int)
    requires
        table.aligned(),
        n <= table.height(),
        table.messages_up_to(n) is Ok,
        0 <= i < n,
    ensures
        table.messages_up_to(n)->Ok_0.len() == n,
        table.row(i) is Ok,
        table.messages_up_to(n)->Ok_0[i] == encode_row(table.row(i)->Ok_0),
    decreases n,
{
    let before = table.messages_up_to((n - 1) as nat);
    if n == 1 {
        assert(before == Ok::<Seq<Seq<u8>>, ConvertError>(Seq::empty()));
    } else {
        lemma_messages_up_to(table, (n - 1) as nat, if i < n - 1 { i } else { 0 });
    }
}

/// Where every row of a run has an item, the run has its messages.
pub proof fn lemma_messages_exist(table: TableModel, n: nat)
    requires
        table.aligned(),
        n <= table.height(),
        forall|i: int| 0 <= i < n ==> (#[trigger] table.row(i)) is Ok,
    ensures
        table.messages_up_to(n) is Ok,
    decreases n,
{
    if n > 0 {
        lemma_messages_exist(table, (n - 1) as nat);
    }
}

/// Row order: a table that is converted gives one message for each row, and
/// the message with index `i` is that of row `i`.
pub proof fn lemma_messages_follow_rows(table: TableModel, i: int)
    requires
        table.aligned(),
        table.messages() is Ok,
        0 <= i < table.height(),
    ensures
        table.messages()->Ok_0.len() == table.height(),
        table.row(i) is Ok,
        table.messages()->Ok_0[i] == encode_row(table.row(i)->Ok_0),
{
    lemma_messages_up_to(table, table.height(), i);
}

/// A table is converted if and only if each of its rows has an item. For a
/// table without rows that is: if and only if each column stores what its
/// field needs.
pub proof fn lemma_messages_iff_rows(table: TableModel)
    requires
        table.aligned(),
    ensures
        table.messages() is Ok <==> table.type_fault() is None && forall|i: int|
            0 <= i < table.height() ==> (#[trigger] table.row(i)) is Ok,
{
    if table.type_fault() is None {
        if table.messages() is Ok {
            assert forall|i: int| 0 <= i < table.height() implies (#[trigger] table.row(
                i,
            )) is Ok by {
                lemma_messages_up_to(table, table.height(), i);
            }
        }
        if forall|i: int| 0 <= i < table.height() ==> (#[trigger] table.row(i)) is Ok {
            lemma_messages_exist(table, table.height());
        }
    }
}

/// The error of a table whose columns store what their fields need is that
/// of its first row without an item.
pub proof fn lemma_messages_first_error(table: TableModel, i: int)
    requires
        table.aligned(),
        table.type_fault() is None,
        0 <= i < table.height(),
        table.row(i) is Err,
        forall|j: int| 0 <= j < i ==> (#[trigger] table.row(j)) is Ok,
    ensures
        table.messages() == Err::<Seq<Seq<u8>>, ConvertError>(table.row(i)->Err_0),
{
    lemma_messages_exist(table, i as nat);
    lemma_error_persists(table, i as nat, table.height());
}

/// Whether the title of each row, written as UTF-8, has a length that fits
/// in 64 bits. Every table that is held in memory is such a table.
pub open spec fn titles_fit(table: TableModel) -> bool {
    forall|i: int|
        0 <= i < table.height() && (#[trigger] table.row(i)) is Ok ==> encode_utf8(
            table.row(i)->Ok_0.title,
        ).len() <= u64::MAX
}

/// Reading back: the message with index `i` of a table that is converted is
/// read as the item in row `i`.
pub proof fn lemma_decode_message(table: TableModel, i: int)
    requires
        table.aligned(),
        table.messages() is Ok,
        titles_fit(table),
        0 <= i < table.height(),
    ensures
        table.row(i) is Ok,
        decode_row_model(table.messages()->Ok_0[i]) == Ok::<RowModel, DecodeError>(
            table.row(i)->Ok_0,
        ),
{
    lemma_messages_follow_rows(table, i);
    lemma_decode_encode(table.row(i)->Ok_0);
}

/// The type tag: a row whose type-tag text is exactly "story" is written as a
/// story, with the kind's number 0; a row with any other text, the empty one
/// too, as a comment, with the number 1.
pub proof fn lemma_type_tag(table: TableModel, i: int)
    requires
        table.aligned(),
        table.messages() is Ok,
        titles_fit(table),
        0 <= i < table.height(),
    ensures
        table.row_type is Text,
        table.row_type->Text_0[i] is Some,
        decode_row_model(table.messages()->Ok_0[i]) is Ok,
        table.row_type->Text_0[i]->Some_0 == "story"@ ==> {
            &&& decode_row_model(table.messages()->Ok_0[i])->Ok_0.row_type == RowType::Story
            &&& decode_row_model(table.messages()->Ok_0[i])->Ok_0.row_type.discriminant() == 0
        },
        table.row_type->Text_0[i]->Some_0 != "story"@ ==> {
            &&& decode_row_model(table.messages()->Ok_0[i])->Ok_0.row_type == RowType::Comment
            &&& decode_row_model(table.messages()->Ok_0[i])->Ok_0.row_type.discriminant() == 1
        },
{
    lemma_decode_message(table, i);
}

/// A row without a timestamp is written with the timestamp 0.
pub proof fn lemma_absent_timestamp(table: TableModel, i: int)
    requires
        table.aligned(),
        table.messages() is Ok,
        titles_fit(table),
        0 <= i < table.height(),
        table.time->Int_0[i] is None,
    ensures
        decode_row_model(table.messages()->Ok_0[i]) is Ok,
        decode_row_model(table.messages()->Ok_0[i])->Ok_0.timestamp == 0,
{
    lemma_decode_message(table, i);
}

/// A row without a title is written with the empty title.
pub proof fn lemma_absent_title(table: TableModel, i: int)
    requires
        table.aligned(),
        table.messages() is Ok,
        titles_fit(table),
        0 <= i < table.height(),
        table.title->Text_0[i] is None,
    ensures
        decode_row_model(table.messages()->Ok_0[i]) is Ok,
        decode_row_model(table.messages()->Ok_0[i])->Ok_0.title == Seq::<char>::empty(),
{
    lemma_decode_message(table, i);
}

/// A row without a score is written with the score 0.
pub proof fn lemma_absent_score(table: TableModel, i: int)
    requires
        table.aligned(),
        table.messages() is Ok,
        titles_fit(table),
        0 <= i < table.height(),
        table.score->Int_0[i] is None,
    ensures
        decode_row_model(table.messages()->Ok_0[i]) is Ok,
        decode_row_model(table.messages()->Ok_0[i])->Ok_0.score == 0,
{
    lemma_decode_message(table, i);
}

} // verus!
