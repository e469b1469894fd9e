//! The profile as a spreadsheet holds it: the sheet of types and the sheet
//! of messages, row by row, made into a [`FitProfile`].
//!
//! A cell comes as plain values: its kind, its text, its number where it
//! holds one, and the parts of its text between commas.
use vstd::prelude::*;
use vstd::string::StrSliceExecFns;
use crate::fit::BaseType;
use crate::profile::{
    Component, component_models, ComponentModel, FitProfile, Message, message_field_models,
    message_models, MessageField, MessageFieldModel, MessageModel, NestedMessageField, OFFSET_ZERO,
    ProfileModel, SCALE_ONE, sub_field_models, SubFieldModel, Type, type_models, TypeModel,
    TypeValue, TypeValueModel,
};
use crate::text::{decimal_of, number_of, parse_decimal, parse_number, str_eq, trim_bounds, trimmed};

verus! {

/// What a cell holds.
#[derive(Debug, Clone, Copy, PartialEq, Eq, Structural)]
pub enum CellKind {
    Empty,
    Text,
    Float,
    Int,
    Other,
}

/// A part of the text of a cell between two commas, without the white
/// space at its ends, and the number that it reads as, if it reads as one,
/// as a binary64 bit pattern.
#[derive(Debug, Clone, PartialEq)]
pub struct Piece {
    pub text: String,
    pub number: Option<u64>,
}

/// A cell of a sheet: its kind, its text as the sheet shows it, its number
/// as a binary64 bit pattern where it is a float, and its parts.
#[derive(Debug, Clone, PartialEq)]
pub struct Cell {
    pub kind: CellKind,
    pub text: String,
    pub number: u64,
    pub pieces: Vec<Piece>,
}

/// Why the rows of a sheet make no profile. A row counts from zero, the
/// header included.
#[derive(Debug, Clone, Copy, PartialEq, Eq, Structural)]
pub enum SheetError {
    /// The base type of a type is none of the base types.
    UnknownBaseType { row: usize },
    /// The number of a named number of a type cannot be read.
    BadValue { row: usize },
    /// A row of a type has no name for its number.
    ValueNameMissing { row: usize },
    /// A row of a named number comes before any type.
    RowWithoutType { row: usize },
    /// A row of a field comes before any message.
    RowWithoutMessage { row: usize },
    /// The definition number of a field cannot be read.
    BadFieldNumber { row: usize },
    /// A row of a sub-field comes before any field of its message.
    SubFieldWithoutField { row: usize },
    /// A sub-field names no field or no value to refer to.
    MissingReference { row: usize },
    /// A component has no width in bits.
    BadBits { row: usize },
    /// A component names no field of its message.
    UnknownComponent { message: usize },
}

/// Whether the cell `i` of a row is empty or not there.
pub open spec fn blank(row: Seq<Cell>, i: int) -> bool {
    i >= row.len() || row[i].kind == CellKind::Empty
}

/// The text of the cell `i` of a row; that of a cell that is not there is
/// empty.
pub open spec fn text_at(row: Seq<Cell>, i: int) -> Seq<char> {
    if 0 <= i < row.len() {
        row[i].text@
    } else {
        Seq::empty()
    }
}

/// Whether the cell `i` of a row holds text.
pub open spec fn is_text(row: Seq<Cell>, i: int) -> bool {
    0 <= i < row.len() && row[i].kind == CellKind::Text
}

/// The float of the cell `i` of a row, or `default` where it holds none.
pub open spec fn float_at(row: Seq<Cell>, i: int, default: u64) -> u64 {
    if 0 <= i < row.len() && row[i].kind == CellKind::Float {
        row[i].number
    } else {
        default
    }
}

/// The text of the cell `i` of a row where it holds text or a number.
pub open spec fn as_text(row: Seq<Cell>, i: int) -> Option<Seq<char>> {
    if 0 <= i < row.len() && (row[i].kind == CellKind::Text || row[i].kind == CellKind::Float
        || row[i].kind == CellKind::Int) {
        Some(row[i].text@)
    } else {
        None
    }
}

/// The part `k` of the cell `i` of a row.
pub open spec fn piece_at(row: Seq<Cell>, i: int, k: int) -> Option<Piece> {
    if 0 <= i < row.len() && 0 <= k < row[i].pieces@.len() {
        Some(row[i].pieces@[k])
    } else {
        None
    }
}

/// The index of the first character from `i` on that is not `c`.
pub open spec fn skip_char(s: Seq<char>, c: char, i: int) -> int
    decreases s.len() - i,
{
    if 0 <= i < s.len() && s[i] == c {
        skip_char(s, c, i + 1)
    } else {
        i
    }
}

/// The index after the last character before `i`, down to `low`, that is
/// not `c`.
pub open spec fn drop_char(s: Seq<char>, c: char, low: int, i: int) -> int
    decreases i,
{
    if 0 <= low < i <= s.len() && s[i - 1] == c {
        drop_char(s, c, low, i - 1)
    } else {
        i
    }
}

/// The size of an array that a text declares: the text, without white
/// space at its ends, must stand in square brackets; what stands between
/// them is `N` for any length, which counts as zero, or a decimal number.
pub open spec fn array_size_of(text: Seq<char>) -> Option<usize> {
    let t = trimmed(text);
    if t.len() == 0 || t[0] != '[' || t.last() != ']' {
        None
    } else {
        let from = skip_char(t, '[', 0);
        let inner = t.subrange(from, drop_char(t, ']', from, t.len() as int));
        if inner == seq!['N'] {
            Some(0usize)
        } else {
            match decimal_of(inner) {
                Some(v) => if v <= usize::MAX {
                    Some(v as usize)
                } else {
                    None
                },
                None => None,
            }
        }
    }
}

/// The size of an array that a text declares.
pub fn parse_array_size(text: &str) -> (r: Option<usize>)
    ensures
        r == array_size_of(text@),
{
    let (a, b) = trim_bounds(text);
    if a == b {
        return None;
    }
    let t = text.substring_char(a, b);
    assert(t@ == trimmed(text@));
    let n = b - a;
    if t.get_char(0) != '[' || t.get_char(n - 1) != ']' {
        return None;
    }
    let mut from: usize = 0;
    while from < n && t.get_char(from) == '['
        invariant
            from <= n,
            n == t@.len(),
            skip_char(t@, '[', 0) == skip_char(t@, '[', from as int),
        decreases n - from,
    {
        from += 1;
    }
    let mut to: usize = n;
    while to > from && t.get_char(to - 1) == ']'
        invariant
            from <= to <= n,
            n == t@.len(),
            drop_char(t@, ']', from as int, n as int) == drop_char(t@, ']', from as int, to as int),
        decreases to,
    {
        to -= 1;
    }
    let inner = t.substring_char(from, to);
    if str_eq(inner, "N") {
        proof {
            reveal_strlit("N");
            assert("N"@ =~= seq!['N']);
        }
        return Some(0);
    }
    proof {
        reveal_strlit("N");
        assert("N"@ =~= seq!['N']);
    }
    match parse_decimal(inner, usize::MAX as u64) {
        Some(v) => Some(v as usize),
        None => None,
    }
}

/// Whether the cell `i` of a row is empty or not there.
pub fn cell_blank(row: &Vec<Cell>, i: usize) -> (r: bool)
    ensures
        r == blank(row@, i as int),
{
    if i >= row.len() {
        true
    } else {
        match row[i].kind {
            CellKind::Empty => true,
            _ => false,
        }
    }
}

/// The text of the cell `i` of a row.
pub fn cell_text(row: &Vec<Cell>, i: usize) -> (r: String)
    ensures
        r@ == text_at(row@, i as int),
{
    if i < row.len() {
        row[i].text.clone()
    } else {
        String::new()
    }
}

/// Whether the cell `i` of a row holds text.
pub fn cell_is_text(row: &Vec<Cell>, i: usize) -> (r: bool)
    ensures
        r == is_text(row@, i as int),
{
    if i < row.len() {
        match row[i].kind {
            CellKind::Text => true,
            _ => false,
        }
    } else {
        false
    }
}

/// The float of the cell `i` of a row, or `default` where it holds none.
pub fn cell_float(row: &Vec<Cell>, i: usize, default: u64) -> (r: u64)
    ensures
        r == float_at(row@, i as int, default),
{
    if i < row.len() {
        match row[i].kind {
            CellKind::Float => row[i].number,
            _ => default,
        }
    } else {
        default
    }
}

/// The size of the array that the cell `i` of a row declares.
pub fn cell_array(row: &Vec<Cell>, i: usize) -> (r: Option<usize>)
    ensures
        r == (match as_text(row@, i as int) {
            Some(t) => array_size_of(t),
            None => None,
        }),
{
    if i < row.len() {
        match row[i].kind {
            CellKind::Text | CellKind::Float | CellKind::Int => parse_array_size(
                row[i].text.as_str(),
            ),
            _ => None,
        }
    } else {
        None
    }
}

/// The part `k` of the cell `i` of a row.
pub fn cell_piece(row: &Vec<Cell>, i: usize, k: usize) -> (r: Option<&Piece>)
    ensures
        r matches Some(p) ==> piece_at(row@, i as int, k as int) == Some(*p),
        r is None ==> piece_at(row@, i as int, k as int) is None,
{
    if i < row.len() && k < row[i].pieces.len() {
        Some(&row[i].pieces[k])
    } else {
        None
    }
}

/// The number up to `max` that a text stands for, where it stands for one.
pub open spec fn bounded(n: Option<int>, max: int) -> Option<int> {
    match n {
        Some(v) => if v <= max {
            Some(v)
        } else {
            None
        },
        None => None,
    }
}

/// The types with one more named number for the last of them.
pub open spec fn with_value(types: Seq<TypeModel>, value: TypeValueModel) -> Seq<TypeModel> {
    types.update(
        types.len() - 1,
        TypeModel { values: types.last().values.push(value), ..types.last() },
    )
}

/// The types of the rows from `i` on. A row with a first cell starts a
/// type: its name and its base type. Any other row gives the last type a
/// named number: the name in the third cell, the number in the fourth.
pub open spec fn types_from(rows: Seq<Vec<Cell>>, i: int, types: Seq<TypeModel>) -> Result<
    Seq<TypeModel>,
    SheetError,
>
    decreases rows.len() - i,
{
    if i < 0 || i >= rows.len() {
        Ok(types)
    } else {
        let row = rows[i]@;
        if !blank(row, 0) {
            match BaseType::spec_from_name(text_at(row, 1)) {
                Some(base_type) => types_from(
                    rows,
                    i + 1,
                    types.push(TypeModel { name: text_at(row, 0), base_type, values: Seq::empty() }),
                ),
                None => Err(SheetError::UnknownBaseType { row: i as usize }),
            }
        } else if types.len() == 0 {
            Err(SheetError::RowWithoutType { row: i as usize })
        } else if blank(row, 2) {
            Err(SheetError::ValueNameMissing { row: i as usize })
        } else {
            match bounded(number_of(text_at(row, 3)), u64::MAX as int) {
                Some(v) => types_from(
                    rows,
                    i + 1,
                    with_value(types, TypeValueModel { name: text_at(row, 2), value: v as u64 }),
                ),
                None => Err(SheetError::BadValue { row: i as usize }),
            }
        }
    }
}

/// The types of a sheet of types, whose first row is its header.
#[verifier::loop_isolation(false)]
pub fn process_types(rows: &Vec<Vec<Cell>>) -> (r: Result<Vec<Type>, SheetError>)
    ensures
        match r {
            Ok(types) => types_from(rows@, 1, Seq::empty()) == Ok::<_, SheetError>(
                type_models(types@),
            ),
            Err(e) => types_from(rows@, 1, Seq::empty()) == Err::<Seq<TypeModel>, _>(e),
        },
{
    let mut types: Vec<Type> = Vec::new();
    let ghost goal = types_from(rows@, 1, Seq::empty());
    assert(type_models(types@) =~= Seq::empty());
    let mut i: usize = 1;
    while i < rows.len()
        invariant
            1 <= i,
            goal == types_from(rows@, i as int, type_models(types@)),
        decreases rows.len() - i,
    {
        let row = &rows[i];
        let ghost before = type_models(types@);
        if !cell_blank(row, 0) {
            let name = cell_text(row, 1);
            let base_type = match BaseType::from_name(name.as_str()) {
                Some(t) => t,
                None => {
                    return Err(SheetError::UnknownBaseType { row: i });
                },
            };
            let t = Type { name: cell_text(row, 0), base_type, values: Vec::new() };
            assert(t@.values =~= Seq::empty());
            types.push(t);
            assert(type_models(types@) =~= before.push(t@));
        } else if types.len() == 0 {
            return Err(SheetError::RowWithoutType { row: i });
        } else if cell_blank(row, 2) {
            return Err(SheetError::ValueNameMissing { row: i });
        } else {
            let text = cell_text(row, 3);
            let value = match parse_number(text.as_str(), u64::MAX) {
                Some(v) => v,
                None => {
                    return Err(SheetError::BadValue { row: i });
                },
            };
            let named = TypeValue { name: cell_text(row, 2), value };
            let last = types.len() - 1;
            let ghost old_type = types[last as int]@;
            assert(before[last as int] == old_type);
            types[last].values.push(named);
            assert(types[last as int]@.values =~= old_type.values.push(named@));
            assert(type_models(types@) =~= with_value(before, named@));
        }
        i += 1;
    }
    Ok(types)
}

/// The text of the part `k` of the cell `i` of a row; empty where the part
/// is not there.
pub open spec fn piece_text(row: Seq<Cell>, i: int, k: int) -> Seq<char> {
    match piece_at(row, i, k) {
        Some(p) => p.text@,
        None => Seq::empty(),
    }
}

/// The number of the part `k` of the cell `i` of a row, or `default` where
/// the part is not there or reads as no number.
pub open spec fn piece_number(row: Seq<Cell>, i: int, k: int, default: u64) -> u64 {
    match piece_at(row, i, k) {
        Some(p) => match p.number {
            Some(n) => n,
            None => default,
        },
        None => default,
    }
}

/// The number of parts of the cell `i` of a row.
pub open spec fn pieces_len(row: Seq<Cell>, i: int) -> int {
    if 0 <= i < row.len() {
        row[i].pieces@.len() as int
    } else {
        0
    }
}

/// The component `k` of a row, before it is linked to the field that it
/// names: the name in the sixth cell, the scale, the offset, the unit and
/// the flag of accumulation in the cells after it, each the `k`-th part of
/// its cell, and the width that was read from the tenth.
pub open spec fn raw_component(row: Seq<Cell>, k: int, bits: u8) -> ComponentModel {
    ComponentModel {
        bits,
        field_name: piece_text(row, 5, k),
        field_type: Seq::empty(),
        array: None,
        scale: piece_number(row, 6, k, SCALE_ONE),
        offset: piece_number(row, 7, k, OFFSET_ZERO),
        units: piece_text(row, 8, k),
        accumulate: piece_text(row, 10, k) == "1"@,
    }
}

/// The components of a row from the `k`-th on. Each must have a width of
/// up to 255 bits.
pub open spec fn raw_components_from(
    row: Seq<Cell>,
    at: usize,
    k: int,
    out: Seq<ComponentModel>,
) -> Result<Seq<ComponentModel>, SheetError>
    decreases pieces_len(row, 5) - k,
{
    if k < 0 || k >= pieces_len(row, 5) {
        Ok(out)
    } else {
        match bounded(decimal_of(piece_text(row, 9, k)), 255) {
            Some(bits) => raw_components_from(
                row,
                at,
                k + 1,
                out.push(raw_component(row, k, bits as u8)),
            ),
            None => Err(SheetError::BadBits { row: at }),
        }
    }
}

/// The components of a row: one for each name in its sixth cell, where
/// that holds text.
pub open spec fn raw_components(row: Seq<Cell>, at: usize) -> Result<
    Seq<ComponentModel>,
    SheetError,
> {
    if is_text(row, 5) {
        raw_components_from(row, at, 0, Seq::empty())
    } else {
        Ok(Seq::empty())
    }
}

/// The size of the array that a row declares in its fifth cell.
pub open spec fn array_at(row: Seq<Cell>) -> Option<usize> {
    match as_text(row, 4) {
        Some(t) => array_size_of(t),
        None => None,
    }
}

/// The field of a row: its name, type, array, scale, offset and unit in
/// the cells from the third on.
pub open spec fn field_of(row: Seq<Cell>, number: u8, components: Seq<ComponentModel>) -> MessageFieldModel {
    MessageFieldModel {
        field_no: number,
        field_name: text_at(row, 2),
        field_type: text_at(row, 3),
        array: array_at(row),
        components,
        scale: float_at(row, 6, SCALE_ONE),
        offset: float_at(row, 7, OFFSET_ZERO),
        units: text_at(row, 8),
        accumulate: false,
        sub_fields: Seq::empty(),
    }
}

/// The sub-field of a row for the `k`-th of its references: the name of a
/// field in the twelfth cell and the name of a value in the thirteenth.
pub open spec fn sub_field_of(row: Seq<Cell>, k: int, components: Seq<ComponentModel>) -> SubFieldModel {
    SubFieldModel {
        field_name: text_at(row, 2),
        field_type: text_at(row, 3),
        array: array_at(row),
        components,
        scale: float_at(row, 6, SCALE_ONE),
        offset: float_at(row, 7, OFFSET_ZERO),
        units: text_at(row, 8),
        ref_field_name: piece_text(row, 11, k),
        ref_field_value: piece_text(row, 12, k),
    }
}

/// The number of references of a row: as many as it names both a field and
/// a value for.
pub open spec fn references(row: Seq<Cell>) -> int {
    if pieces_len(row, 11) <= pieces_len(row, 12) {
        pieces_len(row, 11)
    } else {
        pieces_len(row, 12)
    }
}

/// The sub-fields with those of a row from its `k`-th reference on.
pub open spec fn sub_fields_with(
    row: Seq<Cell>,
    components: Seq<ComponentModel>,
    k: int,
    subs: Seq<SubFieldModel>,
) -> Seq<SubFieldModel>
    decreases references(row) - k,
{
    if k < 0 || k >= references(row) {
        subs
    } else {
        sub_fields_with(row, components, k + 1, subs.push(sub_field_of(row, k, components)))
    }
}

/// The messages with one more field for the last of them.
pub open spec fn with_message_field(ms: Seq<MessageModel>, field: MessageFieldModel) -> Seq<
    MessageModel,
> {
    ms.update(ms.len() - 1, MessageModel { fields: ms.last().fields.push(field), ..ms.last() })
}

/// The messages with other sub-fields for the last field of the last of
/// them.
pub open spec fn with_sub_fields(ms: Seq<MessageModel>, subs: Seq<SubFieldModel>) -> Seq<
    MessageModel,
> {
    let fields = ms.last().fields;
    ms.update(
        ms.len() - 1,
        MessageModel {
            fields: fields.update(
                fields.len() - 1,
                MessageFieldModel { sub_fields: subs, ..fields.last() },
            ),
            ..ms.last()
        },
    )
}

/// The messages of the rows from `i` on, with their components not yet
/// linked. A row with a first cell starts a message. A row without a third
/// cell is passed over. A row with a second cell is a field of the last
/// message, the second cell its definition number. Any other row gives the
/// last field sub-fields, one for each of its references.
pub open spec fn messages_from(rows: Seq<Vec<Cell>>, i: int, ms: Seq<MessageModel>) -> Result<
    Seq<MessageModel>,
    SheetError,
>
    decreases rows.len() - i,
{
    if i < 0 || i >= rows.len() {
        Ok(ms)
    } else {
        let row = rows[i]@;
        if !blank(row, 0) {
            messages_from(
                rows,
                i + 1,
                ms.push(MessageModel { name: text_at(row, 0), fields: Seq::empty() }),
            )
        } else if ms.len() == 0 {
            Err(SheetError::RowWithoutMessage { row: i as usize })
        } else if blank(row, 2) {
            messages_from(rows, i + 1, ms)
        } else if !blank(row, 1) {
            match bounded(decimal_of(text_at(row, 1)), 255) {
                Some(number) => match raw_components(row, i as usize) {
                    Ok(components) => messages_from(
                        rows,
                        i + 1,
                        with_message_field(ms, field_of(row, number as u8, components)),
                    ),
                    Err(e) => Err(e),
                },
                None => Err(SheetError::BadFieldNumber { row: i as usize }),
            }
        } else if ms.last().fields.len() == 0 {
            Err(SheetError::SubFieldWithoutField { row: i as usize })
        } else if !is_text(row, 11) || !is_text(row, 12) {
            Err(SheetError::MissingReference { row: i as usize })
        } else if references(row) == 0 {
            messages_from(rows, i + 1, ms)
        } else {
            match raw_components(row, i as usize) {
                Ok(components) => messages_from(
                    rows,
                    i + 1,
                    with_sub_fields(
                        ms,
                        sub_fields_with(row, components, 0, ms.last().fields.last().sub_fields),
                    ),
                ),
                Err(e) => Err(e),
            }
        }
    }
}

/// A copy of a vector of components.
pub fn clone_components(components: &Vec<Component>) -> (r: Vec<Component>)
    ensures
        component_models(r@) == component_models(components@),
{
    let mut out: Vec<Component> = Vec::new();
    let mut i: usize = 0;
    while i < components.len()
        invariant
            i <= components.len(),
            out.len() == i,
            forall|j: int| 0 <= j < i ==> out[j]@ == components[j]@,
        decreases components.len() - i,
    {
        let c = &components[i];
        out.push(
            Component {
                bits: c.bits,
                field_name: c.field_name.clone(),
                field_type: c.field_type.clone(),
                array: c.array,
                scale: c.scale,
                offset: c.offset,
                units: c.units.clone(),
                accumulate: c.accumulate,
            },
        );
        i += 1;
    }
    assert(component_models(out@) =~= component_models(components@));
    out
}

/// The text of the part `k` of the cell `i` of a row.
fn part_text(row: &Vec<Cell>, i: usize, k: usize) -> (r: String)
    ensures
        r@ == piece_text(row@, i as int, k as int),
{
    match cell_piece(row, i, k) {
        Some(p) => p.text.clone(),
        None => String::new(),
    }
}

/// The number of the part `k` of the cell `i` of a row.
fn part_number(row: &Vec<Cell>, i: usize, k: usize, default: u64) -> (r: u64)
    ensures
        r == piece_number(row@, i as int, k as int, default),
{
    match cell_piece(row, i, k) {
        Some(p) => match p.number {
            Some(n) => n,
            None => default,
        },
        None => default,
    }
}

/// The number of parts of the cell `i` of a row.
fn parts(row: &Vec<Cell>, i: usize) -> (r: usize)
    ensures
        r == pieces_len(row@, i as int),
{
    if i < row.len() {
        row[i].pieces.len()
    } else {
        0
    }
}

/// The components of a row, before they are linked.
#[verifier::loop_isolation(false)]
pub fn parse_components(row: &Vec<Cell>, at: usize) -> (r: Result<Vec<Component>, SheetError>)
    ensures
        match r {
            Ok(c) => raw_components(row@, at) == Ok::<_, SheetError>(component_models(c@)),
            Err(e) => raw_components(row@, at) == Err::<Seq<ComponentModel>, _>(e),
        },
{
    let mut components: Vec<Component> = Vec::new();
    assert(component_models(components@) =~= Seq::empty());
    if !cell_is_text(row, 5) {
        return Ok(components);
    }
    let n = parts(row, 5);
    let mut k: usize = 0;
    while k < n
        invariant
            k <= n,
            n == pieces_len(row@, 5),
            raw_components(row@, at) == raw_components_from(
                row@,
                at,
                k as int,
                component_models(components@),
            ),
        decreases n - k,
    {
        let ghost before = component_models(components@);
        let width = part_text(row, 9, k);
        let bits = match parse_decimal(width.as_str(), 255) {
            Some(b) => b as u8,
            None => {
                return Err(SheetError::BadBits { row: at });
            },
        };
        let flag = part_text(row, 10, k);
        let c = Component {
            bits,
            field_name: part_text(row, 5, k),
            field_type: String::new(),
            array: None,
            scale: part_number(row, 6, k, SCALE_ONE),
            offset: part_number(row, 7, k, OFFSET_ZERO),
            units: part_text(row, 8, k),
            accumulate: str_eq(flag.as_str(), "1"),
        };
        components.push(c);
        assert(component_models(components@) =~= before.push(c@));
        k += 1;
    }
    Ok(components)
}

/// The messages of a sheet of messages, whose first row is its header,
/// with their components not yet linked.
#[verifier::loop_isolation(false)]
pub fn read_messages(rows: &Vec<Vec<Cell>>) -> (r: Result<Vec<Message>, SheetError>)
    ensures
        match r {
            Ok(ms) => messages_from(rows@, 1, Seq::empty()) == Ok::<_, SheetError>(
                message_models(ms@),
            ),
            Err(e) => messages_from(rows@, 1, Seq::empty()) == Err::<Seq<MessageModel>, _>(e),
        },
{
    let mut messages: Vec<Message> = Vec::new();
    let ghost goal = messages_from(rows@, 1, Seq::empty());
    assert(message_models(messages@) =~= Seq::empty());
    let mut i: usize = 1;
    while i < rows.len()
        invariant
            1 <= i,
            goal == messages_from(rows@, i as int, message_models(messages@)),
        decreases rows.len() - i,
    {
        let row = &rows[i];
        let ghost before = message_models(messages@);
        if !cell_blank(row, 0) {
            let m = Message { name: cell_text(row, 0), fields: Vec::new() };
            assert(m@.fields =~= Seq::empty());
            messages.push(m);
            assert(message_models(messages@) =~= before.push(m@));
        } else if messages.len() == 0 {
            return Err(SheetError::RowWithoutMessage { row: i });
        } else if cell_blank(row, 2) {
        } else if !cell_blank(row, 1) {
            let text = cell_text(row, 1);
            let number = match parse_decimal(text.as_str(), 255) {
                Some(n) => n as u8,
                None => {
                    return Err(SheetError::BadFieldNumber { row: i });
                },
            };
            let components = parse_components(row, i)?;
            let field = MessageField {
                field_no: number,
                field_name: cell_text(row, 2),
                field_type: cell_text(row, 3),
                array: cell_array(row, 4),
                components,
                scale: cell_float(row, 6, SCALE_ONE),
                offset: cell_float(row, 7, OFFSET_ZERO),
                units: cell_text(row, 8),
                accumulate: false,
                sub_fields: Vec::new(),
            };
            assert(field@.sub_fields =~= Seq::empty());
            let last = messages.len() - 1;
            let ghost old_message = messages[last as int]@;
            assert(before[last as int] == old_message);
            messages[last].fields.push(field);
            assert(messages[last as int]@.fields =~= old_message.fields.push(field@));
            assert(message_models(messages@) =~= with_message_field(before, field@));
        } else {
            let last = messages.len() - 1;
            if messages[last].fields.len() == 0 {
                assert(before[last as int] == messages[last as int]@);
                return Err(SheetError::SubFieldWithoutField { row: i });
            }
            if !cell_is_text(row, 11) || !cell_is_text(row, 12) {
                assert(before[last as int] == messages[last as int]@);
                return Err(SheetError::MissingReference { row: i });
            }
            let names = parts(row, 11);
            let values = parts(row, 12);
            let count = if names <= values {
                names
            } else {
                values
            };
            if count > 0 {
                let components = match parse_components(row, i) {
                    Ok(c) => c,
                    Err(e) => {
                        assert(before[last as int] == messages[last as int]@);
                        return Err(e);
                    },
                };
                let field_index = messages[last].fields.len() - 1;
                let ghost old_message = messages[last as int]@;
                let ghost old_field = messages[last as int].fields[field_index as int]@;
                assert(before[last as int] == old_message);
                assert(old_message.fields[field_index as int] == old_field);
                let ghost comps = component_models(components@);
                let mut k: usize = 0;
                while k < count
                    invariant
                        k <= count,
                        count == references(row@),
                        last == messages.len() - 1,
                        messages.len() == before.len(),
                        field_index == messages[last as int].fields.len() - 1,
                        messages[last as int].fields.len() == old_message.fields.len(),
                        comps == component_models(components@),
                        forall|j: int| 0 <= j < last ==> messages[j]@ == before[j],
                        messages[last as int].name@ == old_message.name,
                        forall|j: int|
                            0 <= j < field_index ==> messages[last as int].fields[j]@
                                == old_message.fields[j],
                        messages[last as int].fields[field_index as int]@ == (MessageFieldModel {
                            sub_fields: messages[last as int].fields[field_index as int]@.sub_fields,
                            ..old_field
                        }),
                        sub_fields_with(row@, comps, 0, old_field.sub_fields) == sub_fields_with(
                            row@,
                            comps,
                            k as int,
                            messages[last as int].fields[field_index as int]@.sub_fields,
                        ),
                    decreases count - k,
                {
                    let ghost subs_before =
                        messages[last as int].fields[field_index as int]@.sub_fields;
                    let sub = NestedMessageField {
                        field_name: cell_text(row, 2),
                        field_type: cell_text(row, 3),
                        array: cell_array(row, 4),
                        components: clone_components(&components),
                        scale: cell_float(row, 6, SCALE_ONE),
                        offset: cell_float(row, 7, OFFSET_ZERO),
                        units: cell_text(row, 8),
                        ref_field_name: part_text(row, 11, k),
                        ref_field_value: part_text(row, 12, k),
                    };
                    assert(sub@ == sub_field_of(row@, k as int, comps));
                    messages[last].fields[field_index].sub_fields.push(sub);
                    assert(messages[last as int].fields[field_index as int]@.sub_fields
                        =~= subs_before.push(sub@));
                    k += 1;
                }
                assert(messages[last as int]@.fields =~= old_message.fields.update(
                    field_index as int,
                    MessageFieldModel {
                        sub_fields: sub_fields_with(row@, comps, 0, old_field.sub_fields),
                        ..old_field
                    },
                ));
                assert(message_models(messages@) =~= with_sub_fields(
                    before,
                    sub_fields_with(row@, comps, 0, old_field.sub_fields),
                ));
            }
        }
        i += 1;
    }
    Ok(messages)
}

/// The index of the last field before `k` with a name.
pub open spec fn last_named_before(fields: Seq<MessageFieldModel>, name: Seq<char>, k: int) -> Option<
    int,
>
    decreases k,
{
    if k <= 0 || k > fields.len() {
        None
    } else if fields[k - 1].field_name == name {
        Some(k - 1)
    } else {
        last_named_before(fields, name, k - 1)
    }
}

/// A component linked to the field that it names: it takes the type and
/// the array of the field.
pub open spec fn linked_component(c: ComponentModel, to: MessageFieldModel) -> ComponentModel {
    ComponentModel { field_type: to.field_type, array: to.array, ..c }
}

/// The components from the `k`-th on, each linked to the last field of the
/// message with its name; `None` where one names no field.
pub open spec fn components_linked(
    comps: Seq<ComponentModel>,
    fields: Seq<MessageFieldModel>,
    k: int,
    out: Seq<ComponentModel>,
) -> Option<Seq<ComponentModel>>
    decreases comps.len() - k,
{
    if k < 0 || k >= comps.len() {
        Some(out)
    } else {
        match last_named_before(fields, comps[k].field_name, fields.len() as int) {
            Some(i) => components_linked(
                comps,
                fields,
                k + 1,
                out.push(linked_component(comps[k], fields[i])),
            ),
            None => None,
        }
    }
}

/// The sub-fields from the `k`-th on, with their components linked.
pub open spec fn sub_fields_linked(
    subs: Seq<SubFieldModel>,
    fields: Seq<MessageFieldModel>,
    k: int,
    out: Seq<SubFieldModel>,
) -> Option<Seq<SubFieldModel>>
    decreases subs.len() - k,
{
    if k < 0 || k >= subs.len() {
        Some(out)
    } else {
        match components_linked(subs[k].components, fields, 0, Seq::empty()) {
            Some(components) => sub_fields_linked(
                subs,
                fields,
                k + 1,
                out.push(SubFieldModel { components, ..subs[k] }),
            ),
            None => None,
        }
    }
}

/// Whether one of the components from the `k`-th on has a name and the
/// flag of accumulation.
pub open spec fn flagged(comps: Seq<ComponentModel>, name: Seq<char>, k: int) -> bool
    decreases comps.len() - k,
{
    if k < 0 || k >= comps.len() {
        false
    } else {
        (comps[k].accumulate && comps[k].field_name == name) || flagged(comps, name, k + 1)
    }
}

/// Whether one of the components of the sub-fields from the `k`-th on has
/// a name and the flag of accumulation.
pub open spec fn flagged_in_subs(subs: Seq<SubFieldModel>, name: Seq<char>, k: int) -> bool
    decreases subs.len() - k,
{
    if k < 0 || k >= subs.len() {
        false
    } else {
        flagged(subs[k].components, name, 0) || flagged_in_subs(subs, name, k + 1)
    }
}

/// Whether one of the components of the fields from the `k`-th on, or of
/// their sub-fields, has a name and the flag of accumulation.
pub open spec fn flagged_in_fields(fields: Seq<MessageFieldModel>, name: Seq<char>, k: int) -> bool
    decreases fields.len() - k,
{
    if k < 0 || k >= fields.len() {
        false
    } else {
        flagged(fields[k].components, name, 0) || flagged_in_subs(fields[k].sub_fields, name, 0)
            || flagged_in_fields(fields, name, k + 1)
    }
}

/// The fields of a message from the `k`-th on, linked: the components of
/// each field and of its sub-fields take the type and the array of the
/// field that they name, and a field accumulates where a component of the
/// message that has its name does.
pub open spec fn fields_linked(
    fields: Seq<MessageFieldModel>,
    k: int,
    out: Seq<MessageFieldModel>,
) -> Option<Seq<MessageFieldModel>>
    decreases fields.len() - k,
{
    if k < 0 || k >= fields.len() {
        Some(out)
    } else {
        match components_linked(fields[k].components, fields, 0, Seq::empty()) {
            Some(components) => match sub_fields_linked(
                fields[k].sub_fields,
                fields,
                0,
                Seq::empty(),
            ) {
                Some(sub_fields) => fields_linked(
                    fields,
                    k + 1,
                    out.push(
                        MessageFieldModel {
                            components,
                            sub_fields,
                            accumulate: flagged_in_fields(fields, fields[k].field_name, 0),
                            ..fields[k]
                        },
                    ),
                ),
                None => None,
            },
            None => None,
        }
    }
}

/// The messages from the `k`-th on, linked.
pub open spec fn messages_linked(ms: Seq<MessageModel>, k: int, out: Seq<MessageModel>) -> Result<
    Seq<MessageModel>,
    SheetError,
>
    decreases ms.len() - k,
{
    if k < 0 || k >= ms.len() {
        Ok(out)
    } else {
        match fields_linked(ms[k].fields, 0, Seq::empty()) {
            Some(fields) => messages_linked(
                ms,
                k + 1,
                out.push(MessageModel { name: ms[k].name, fields }),
            ),
            None => Err(SheetError::UnknownComponent { message: k as usize }),
        }
    }
}

/// The messages of a sheet of messages, whose first row is its header.
pub open spec fn messages_of(rows: Seq<Vec<Cell>>) -> Result<Seq<MessageModel>, SheetError> {
    match messages_from(rows, 1, Seq::empty()) {
        Ok(ms) => messages_linked(ms, 0, Seq::empty()),
        Err(e) => Err(e),
    }
}

/// The profile of a sheet of types and a sheet of messages.
pub open spec fn profile_of(types: Seq<Vec<Cell>>, messages: Seq<Vec<Cell>>) -> Result<
    ProfileModel,
    SheetError,
> {
    match types_from(types, 1, Seq::empty()) {
        Ok(types) => match messages_of(messages) {
            Ok(messages) => Ok(ProfileModel { messages, types }),
            Err(e) => Err(e),
        },
        Err(e) => Err(e),
    }
}

/// The index of the last field with a name.
pub fn find_last_named(fields: &Vec<MessageField>, name: &str) -> (r: Option<usize>)
    ensures
        match r {
            Some(i) => last_named_before(
                message_field_models(fields@),
                name@,
                fields@.len() as int,
            ) == Some(i as int) && i < fields@.len(),
            None => last_named_before(message_field_models(fields@), name@, fields@.len() as int)
                is None,
        },
{
    let ghost models = message_field_models(fields@);
    let mut k: usize = fields.len();
    while k > 0
        invariant
            k <= fields.len(),
            models == message_field_models(fields@),
            last_named_before(models, name@, fields@.len() as int) == last_named_before(
                models,
                name@,
                k as int,
            ),
        decreases k,
    {
        assert(models[k - 1] == fields[k - 1]@);
        if str_eq(fields[k - 1].field_name.as_str(), name) {
            return Some(k - 1);
        }
        k -= 1;
    }
    None
}

/// The components, each linked to the field of the message that it names.
#[verifier::loop_isolation(false)]
pub fn link_components(comps: &Vec<Component>, fields: &Vec<MessageField>) -> (r: Option<
    Vec<Component>,
>)
    ensures
        match r {
            Some(out) => components_linked(
                component_models(comps@),
                message_field_models(fields@),
                0,
                Seq::empty(),
            ) == Some(component_models(out@)),
            None => components_linked(
                component_models(comps@),
                message_field_models(fields@),
                0,
                Seq::empty(),
            ) is None,
        },
{
    let mut out: Vec<Component> = Vec::new();
    assert(component_models(out@) =~= Seq::empty());
    let ghost models = component_models(comps@);
    let ghost all = message_field_models(fields@);
    let mut k: usize = 0;
    while k < comps.len()
        invariant
            k <= comps.len(),
            components_linked(models, all, 0, Seq::empty()) == components_linked(
                models,
                all,
                k as int,
                component_models(out@),
            ),
        decreases comps.len() - k,
    {
        let c = &comps[k];
        let ghost before = component_models(out@);
        assert(models[k as int] == c@);
        let i = match find_last_named(fields, c.field_name.as_str()) {
            Some(i) => i,
            None => {
                return None;
            },
        };
        assert(all[i as int] == fields[i as int]@);
        let linked = Component {
            bits: c.bits,
            field_name: c.field_name.clone(),
            field_type: fields[i].field_type.clone(),
            array: fields[i].array,
            scale: c.scale,
            offset: c.offset,
            units: c.units.clone(),
            accumulate: c.accumulate,
        };
        out.push(linked);
        assert(component_models(out@) =~= before.push(linked@));
        k += 1;
    }
    Some(out)
}

/// The sub-fields with their components linked.
#[verifier::loop_isolation(false)]
pub fn link_sub_fields(subs: &Vec<NestedMessageField>, fields: &Vec<MessageField>) -> (r: Option<
    Vec<NestedMessageField>,
>)
    ensures
        match r {
            Some(out) => sub_fields_linked(
                sub_field_models(subs@),
                message_field_models(fields@),
                0,
                Seq::empty(),
            ) == Some(sub_field_models(out@)),
            None => sub_fields_linked(
                sub_field_models(subs@),
                message_field_models(fields@),
                0,
                Seq::empty(),
            ) is None,
        },
{
    let mut out: Vec<NestedMessageField> = Vec::new();
    assert(sub_field_models(out@) =~= Seq::empty());
    let ghost models = sub_field_models(subs@);
    let ghost all = message_field_models(fields@);
    let mut k: usize = 0;
    while k < subs.len()
        invariant
            k <= subs.len(),
            sub_fields_linked(models, all, 0, Seq::empty()) == sub_fields_linked(
                models,
                all,
                k as int,
                sub_field_models(out@),
            ),
        decreases subs.len() - k,
    {
        let sub = &subs[k];
        let ghost before = sub_field_models(out@);
        assert(models[k as int] == sub@);
        let components = match link_components(&sub.components, fields) {
            Some(c) => c,
            None => {
                return None;
            },
        };
        let linked = NestedMessageField {
            field_name: sub.field_name.clone(),
            field_type: sub.field_type.clone(),
            array: sub.array,
            components,
            scale: sub.scale,
            offset: sub.offset,
            units: sub.units.clone(),
            ref_field_name: sub.ref_field_name.clone(),
            ref_field_value: sub.ref_field_value.clone(),
        };
        out.push(linked);
        assert(sub_field_models(out@) =~= before.push(linked@));
        k += 1;
    }
    Some(out)
}

/// Whether one of the components has a name and the flag of accumulation.
pub fn is_flagged(comps: &Vec<Component>, name: &str) -> (r: bool)
    ensures
        r == flagged(component_models(comps@), name@, 0),
{
    let ghost models = component_models(comps@);
    let mut k: usize = 0;
    while k < comps.len()
        invariant
            k <= comps.len(),
            models == component_models(comps@),
            flagged(models, name@, 0) == flagged(models, name@, k as int),
        decreases comps.len() - k,
    {
        assert(models[k as int] == comps[k as int]@);
        if comps[k].accumulate && str_eq(comps[k].field_name.as_str(), name) {
            return true;
        }
        k += 1;
    }
    false
}

/// Whether one of the components of the sub-fields has a name and the flag
/// of accumulation.
pub fn is_flagged_in_subs(subs: &Vec<NestedMessageField>, name: &str) -> (r: bool)
    ensures
        r == flagged_in_subs(sub_field_models(subs@), name@, 0),
{
    let ghost models = sub_field_models(subs@);
    let mut k: usize = 0;
    while k < subs.len()
        invariant
            k <= subs.len(),
            models == sub_field_models(subs@),
            flagged_in_subs(models, name@, 0) == flagged_in_subs(models, name@, k as int),
        decreases subs.len() - k,
    {
        assert(models[k as int] == subs[k as int]@);
        if is_flagged(&subs[k].components, name) {
            return true;
        }
        k += 1;
    }
    false
}

/// Whether one of the components of the fields, or of their sub-fields,
/// has a name and the flag of accumulation.
pub fn is_flagged_in_fields(fields: &Vec<MessageField>, name: &str) -> (r: bool)
    ensures
        r == flagged_in_fields(message_field_models(fields@), name@, 0),
{
    let ghost models = message_field_models(fields@);
    let mut k: usize = 0;
    while k < fields.len()
        invariant
            k <= fields.len(),
            models == message_field_models(fields@),
            flagged_in_fields(models, name@, 0) == flagged_in_fields(models, name@, k as int),
        decreases fields.len() - k,
    {
        assert(models[k as int] == fields[k as int]@);
        if is_flagged(&fields[k].components, name) || is_flagged_in_subs(
            &fields[k].sub_fields,
            name,
        ) {
            return true;
        }
        k += 1;
    }
    false
}

/// The fields of a message, linked.
#[verifier::loop_isolation(false)]
pub fn link_fields(fields: &Vec<MessageField>) -> (r: Option<Vec<MessageField>>)
    ensures
        match r {
            Some(out) => fields_linked(message_field_models(fields@), 0, Seq::empty()) == Some(
                message_field_models(out@),
            ),
            None => fields_linked(message_field_models(fields@), 0, Seq::empty()) is None,
        },
{
    let mut out: Vec<MessageField> = Vec::new();
    assert(message_field_models(out@) =~= Seq::empty());
    let ghost models = message_field_models(fields@);
    let mut k: usize = 0;
    while k < fields.len()
        invariant
            k <= fields.len(),
            fields_linked(models, 0, Seq::empty()) == fields_linked(
                models,
                k as int,
                message_field_models(out@),
            ),
        decreases fields.len() - k,
    {
        let f = &fields[k];
        let ghost before = message_field_models(out@);
        assert(models[k as int] == f@);
        let components = match link_components(&f.components, fields) {
            Some(c) => c,
            None => {
                return None;
            },
        };
        let sub_fields = match link_sub_fields(&f.sub_fields, fields) {
            Some(s) => s,
            None => {
                return None;
            },
        };
        let linked = MessageField {
            field_no: f.field_no,
            field_name: f.field_name.clone(),
            field_type: f.field_type.clone(),
            array: f.array,
            components,
            scale: f.scale,
            offset: f.offset,
            units: f.units.clone(),
            accumulate: is_flagged_in_fields(fields, f.field_name.as_str()),
            sub_fields,
        };
        out.push(linked);
        assert(message_field_models(out@) =~= before.push(linked@));
        k += 1;
    }
    Some(out)
}

/// The messages, linked.
#[verifier::loop_isolation(false)]
pub fn link_messages(messages: &Vec<Message>) -> (r: Result<Vec<Message>, SheetError>)
    ensures
        match r {
            Ok(out) => messages_linked(message_models(messages@), 0, Seq::empty()) == Ok::<
                _,
                SheetError,
            >(message_models(out@)),
            Err(e) => messages_linked(message_models(messages@), 0, Seq::empty()) == Err::<
                Seq<MessageModel>,
                _,
            >(e),
        },
{
    let mut out: Vec<Message> = Vec::new();
    assert(message_models(out@) =~= Seq::empty());
    let ghost models = message_models(messages@);
    let mut k: usize = 0;
    while k < messages.len()
        invariant
            k <= messages.len(),
            messages_linked(models, 0, Seq::empty()) == messages_linked(
                models,
                k as int,
                message_models(out@),
            ),
        decreases messages.len() - k,
    {
        let m = &messages[k];
        let ghost before = message_models(out@);
        assert(models[k as int] == m@);
        let fields = match link_fields(&m.fields) {
            Some(f) => f,
            None => {
                return Err(SheetError::UnknownComponent { message: k });
            },
        };
        let linked = Message { name: m.name.clone(), fields };
        out.push(linked);
        assert(message_models(out@) =~= before.push(linked@));
        k += 1;
    }
    Ok(out)
}

/// The messages of a sheet of messages, whose first row is its header.
pub fn process_messages(rows: &Vec<Vec<Cell>>) -> (r: Result<Vec<Message>, SheetError>)
    ensures
        match r {
            Ok(ms) => messages_of(rows@) == Ok::<_, SheetError>(message_models(ms@)),
            Err(e) => messages_of(rows@) == Err::<Seq<MessageModel>, _>(e),
        },
{
    let raw = read_messages(rows)?;
    link_messages(&raw)
}

/// The profile of a sheet of types and a sheet of messages, each with its
/// header in the first row.
pub fn process_profile(types: &Vec<Vec<Cell>>, messages: &Vec<Vec<Cell>>) -> (r: Result<
    FitProfile,
    SheetError,
>)
    ensures
        match r {
            Ok(p) => profile_of(types@, messages@) == Ok::<_, SheetError>(p@),
            Err(e) => profile_of(types@, messages@) == Err::<ProfileModel, _>(e),
        },
{
    let types = process_types(types)?;
    let messages = process_messages(messages)?;
    Ok(FitProfile { messages, types })
}

} // verus!
