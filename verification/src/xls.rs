use vstd::prelude::*;

verus! {

// The spreadsheet model a workbook file carries: sheets of cells in
// row-major order, each cell an index into one of the per-kind data pools.
// Cell values of the floating-point kind are carried as raw bit patterns.

/// A whole workbook: the sheets and the shared data pools their cells index.
#[derive(Clone, Debug)]
pub struct XlsBook {
    pub sheet: Vec<XlsSheet>,
    pub cell: Vec<XlsCell>,
    pub string_data: Vec<Vec<u8>>,
    pub value_data: Vec<u32>,
    pub bool_data: Vec<u8>,
    pub date_data: Vec<Vec<u8>>,
    pub color_data: Vec<u32>,
    pub attribute: Vec<XlsAttribute>,
}

/// One sheet: a `cols` by `rows` grid of indices into the cell pool.
#[derive(Clone, Debug)]
pub struct XlsSheet {
    pub cols: u32,
    pub rows: u32,
    pub cell_index: Vec<u32>,
    pub name: Vec<u8>,
}

/// One pooled cell: its data kind, the index of its datum in that kind's
/// pool, and the index of its attribute pair.
#[derive(Clone, Copy, Debug, PartialEq, Eq, Structural)]
pub struct XlsCell {
    pub kind: u16,
    pub data_index: u32,
    pub attribute_index: u32,
}

/// A cell's colors, as indices into the color pool.
#[derive(Clone, Copy, Debug, PartialEq, Eq, Structural)]
pub struct XlsAttribute {
    pub fg_color_index: u8,
    pub bg_color_index: u8,
}

/// The textual projection of a workbook.
#[derive(Clone, Debug)]
pub struct XmlBook {
    pub sheets: Vec<XmlSheet>,
}

#[derive(Clone, Debug)]
pub struct XmlSheet {
    pub name: Vec<u8>,
    pub rows: Vec<XmlRow>,
}

#[derive(Clone, Debug)]
pub struct XmlRow {
    pub cells: Vec<XmlCell>,
}

/// One projected cell: its kind, resolved colors, and its datum as text;
/// data of the floating-point kind shows its bit pattern.
#[derive(Clone, Debug)]
pub struct XmlCell {
    pub kind: XmlCellKind,
    pub foreground_color: u32,
    pub background_color: u32,
    pub value: Vec<u8>,
}

/// The five data kinds a cell can hold, in their on-disk tag order.
#[derive(Clone, Copy, Debug, PartialEq, Eq, Structural)]
pub enum XmlCellKind {
    Bool,
    String,
    Value,
    Date,
    Color,
}

pub open spec fn spec_cell_kind_tag(k: XmlCellKind) -> u16 {
    match k {
        XmlCellKind::Bool => 0,
        XmlCellKind::String => 1,
        XmlCellKind::Value => 2,
        XmlCellKind::Date => 3,
        XmlCellKind::Color => 4,
    }
}

/// First position of `v` in `s` at or after `j`; `s.len()` if `v` is absent.
pub open spec fn spec_first_eq<T>(s: Seq<T>, v: T, j: int) -> int
    decreases s.len() - j,
{
    if j < 0 || j >= s.len() {
        s.len() as int
    } else if s[j] == v {
        j
    } else {
        spec_first_eq(s, v, j + 1)
    }
}

/// A deduplicating pool: a value's position identifies it, and inserting a
/// value already present returns its existing position.
#[derive(Clone, Debug)]
pub struct Collection<T> {
    pub values: Vec<T>,
}

impl<T> Collection<T> {
    /// An empty pool.
    pub fn new() -> (r: Collection<T>)
        ensures
            r.values@ =~= Seq::<T>::empty(),
    {
        Collection { values: Vec::new() }
    }
}

impl Collection<XlsCell> {
    /// The position of the cell, inserting it if it is new.
    pub fn index(&mut self, value: &XlsCell) -> (r: usize)
        ensures
            r == spec_first_eq(old(self).values@, *value, 0),
            r < final(self).values@.len(),
            final(self).values@ == if spec_first_eq(old(self).values@, *value, 0) < old(
                self,
            ).values@.len() {
                old(self).values@
            } else {
                old(self).values@.push(*value)
            },
            final(self).values@[r as int] == *value,
    {
        let n = self.values.len();
        let mut j: usize = 0;
        while j < n
            invariant
                j <= n,
                n == self.values@.len(),
                self.values@ == old(self).values@,
                spec_first_eq(self.values@, *value, 0) == spec_first_eq(
                    self.values@,
                    *value,
                    j as int,
                ),
            decreases n - j,
        {
            if self.values[j].kind == value.kind && self.values[j].data_index == value.data_index
                && self.values[j].attribute_index == value.attribute_index {
                assert(self.values@[j as int] == *value);
                return j;
            }
            assert(self.values@[j as int] != *value);
            j = j + 1;
        }
        self.values.push(*value);
        n
    }
}

impl Collection<XlsAttribute> {
    /// The position of the attribute pair, inserting it if it is new.
    pub fn index(&mut self, value: &XlsAttribute) -> (r: usize)
        ensures
            r == spec_first_eq(old(self).values@, *value, 0),
            r < final(self).values@.len(),
            final(self).values@ == if spec_first_eq(old(self).values@, *value, 0) < old(
                self,
            ).values@.len() {
                old(self).values@
            } else {
                old(self).values@.push(*value)
            },
            final(self).values@[r as int] == *value,
    {
        let n = self.values.len();
        let mut j: usize = 0;
        while j < n
            invariant
                j <= n,
                n == self.values@.len(),
                self.values@ == old(self).values@,
                spec_first_eq(self.values@, *value, 0) == spec_first_eq(
                    self.values@,
                    *value,
                    j as int,
                ),
            decreases n - j,
        {
            if self.values[j].fg_color_index == value.fg_color_index && self.values[
                j
            ].bg_color_index == value.bg_color_index {
                assert(self.values@[j as int] == *value);
                return j;
            }
            assert(self.values@[j as int] != *value);
            j = j + 1;
        }
        self.values.push(*value);
        n
    }
}

impl Collection<u32> {
    /// The position of the word, inserting it if it is new.
    pub fn index(&mut self, value: u32) -> (r: usize)
        ensures
            r == spec_first_eq(old(self).values@, value, 0),
            r < final(self).values@.len(),
            final(self).values@ == if spec_first_eq(old(self).values@, value, 0) < old(
                self,
            ).values@.len() {
                old(self).values@
            } else {
                old(self).values@.push(value)
            },
            final(self).values@[r as int] == value,
    {
        let n = self.values.len();
        let mut j: usize = 0;
        while j < n
            invariant
                j <= n,
                n == self.values@.len(),
                self.values@ == old(self).values@,
                spec_first_eq(self.values@, value, 0) == spec_first_eq(
                    self.values@,
                    value,
                    j as int,
                ),
            decreases n - j,
        {
            if self.values[j] == value {
                return j;
            }
            j = j + 1;
        }
        self.values.push(value);
        n
    }
}

impl Collection<u8> {
    /// The position of the byte, inserting it if it is new.
    pub fn index(&mut self, value: u8) -> (r: usize)
        ensures
            r == spec_first_eq(old(self).values@, value, 0),
            r < final(self).values@.len(),
            final(self).values@ == if spec_first_eq(old(self).values@, value, 0) < old(
                self,
            ).values@.len() {
                old(self).values@
            } else {
                old(self).values@.push(value)
            },
            final(self).values@[r as int] == value,
    {
        let n = self.values.len();
        let mut j: usize = 0;
        while j < n
            invariant
                j <= n,
                n == self.values@.len(),
                self.values@ == old(self).values@,
                spec_first_eq(self.values@, value, 0) == spec_first_eq(
                    self.values@,
                    value,
                    j as int,
                ),
            decreases n - j,
        {
            if self.values[j] == value {
                return j;
            }
            j = j + 1;
        }
        self.values.push(value);
        n
    }
}

impl Collection<Vec<u8>> {
    /// The position of the string, inserting a copy if it is new.
    pub fn index(&mut self, value: &[u8]) -> (r: usize)
        ensures
            r == crate::pools::spec_index_of_from(
                crate::pools::spec_view_pool(old(self).values@),
                value@,
                0,
            ),
            r < final(self).values@.len(),
            crate::pools::spec_view_pool(final(self).values@)
                == crate::pools::spec_pool_add(
                crate::pools::spec_view_pool(old(self).values@),
                value@,
            ),
            final(self).values@[r as int]@ == value@,
    {
        let ghost pv = crate::pools::spec_view_pool(self.values@);
        let r = crate::pools::pool_find(&self.values, value);
        if r == self.values.len() {
            let mut copy: Vec<u8> = Vec::new();
            crate::bytes::push_bytes(&mut copy, value);
            self.values.push(copy);
            assert(crate::pools::spec_view_pool(self.values@) =~= pv.push(value@));
        }
        proof {
            crate::pools::lemma_has_add(pv, value@, value@);
            if r < pv.len() {
                crate::pools::lemma_index_of_found(pv, value@, 0);
            }
            assert(crate::pools::spec_view_pool(self.values@)[r as int] == self.values@[
                r as int
            ]@);
        }
        r
    }

    /// A copy of the pooled string, inserting it first when it is new.
    pub fn value(&mut self, value: &[u8]) -> (r: Vec<u8>)
        ensures
            r@ == value@,
            crate::pools::spec_view_pool(final(self).values@)
                == crate::pools::spec_pool_add(
                crate::pools::spec_view_pool(old(self).values@),
                value@,
            ),
    {
        let idx = self.index(value);
        crate::bytes::copy_range(self.values[idx].as_slice(), 0, self.values[idx].len())
    }
}


/// Why a workbook could not be projected to its textual form.
#[derive(Clone, Copy, Debug, PartialEq, Eq, Structural)]
pub enum XlsError {
    /// A grid position outside the sheet's index list.
    MissingCellIndex,
    /// A cell index outside the cell pool.
    MissingCell,
    /// A data index outside its kind's pool.
    MissingData,
    /// A cell data kind beyond the five defined ones.
    UnknownKind(u16),
    /// An attribute index outside the attribute pool.
    MissingAttribute,
    /// A color index outside the color pool, with an empty pool.
    MissingColor,
}

/// What one pooled cell projects to: its kind and its datum as text, both
/// resolved through the workbook's pools.
pub open spec fn spec_cell_text(book: XlsBook, cell: XlsCell) -> Result<
    (XmlCellKind, Seq<u8>),
    XlsError,
> {
    if cell.kind == 0 {
        if cell.data_index < book.bool_data@.len() {
            Ok((XmlCellKind::Bool, crate::xml::spec_dec_u64(book.bool_data@[cell.data_index as int] as u64)))
        } else {
            Err(XlsError::MissingData)
        }
    } else if cell.kind == 1 {
        if cell.data_index < book.string_data@.len() {
            Ok((XmlCellKind::String, book.string_data@[cell.data_index as int]@))
        } else {
            Err(XlsError::MissingData)
        }
    } else if cell.kind == 2 {
        if cell.data_index < book.value_data@.len() {
            Ok((XmlCellKind::Value, crate::xml::spec_dec_u64(book.value_data@[cell.data_index as int] as u64)))
        } else {
            Err(XlsError::MissingData)
        }
    } else if cell.kind == 3 {
        if cell.data_index < book.date_data@.len() {
            Ok((XmlCellKind::Date, book.date_data@[cell.data_index as int]@))
        } else {
            Err(XlsError::MissingData)
        }
    } else if cell.kind == 4 {
        if cell.data_index < book.color_data@.len() {
            Ok((XmlCellKind::Color, crate::xml::spec_dec_u64(book.color_data@[cell.data_index as int] as u64)))
        } else {
            Err(XlsError::MissingData)
        }
    } else {
        Err(XlsError::UnknownKind(cell.kind))
    }
}

/// A cell's resolved colors: each attribute index is reduced by the color
/// pool's length before the lookup, so any index resolves once the pool is
/// nonempty.
pub open spec fn spec_cell_colors(book: XlsBook, cell: XlsCell) -> Result<(u32, u32), XlsError> {
    if cell.attribute_index >= book.attribute@.len() {
        Err(XlsError::MissingAttribute)
    } else if book.color_data@.len() == 0 || book.color_data@.len() > 255 {
        Err(XlsError::MissingColor)
    } else {
        let a = book.attribute@[cell.attribute_index as int];
        let n = book.color_data@.len() as u8;
        Ok(
            (
                book.color_data@[(a.fg_color_index % n) as int],
                book.color_data@[(a.bg_color_index % n) as int],
            ),
        )
    }
}

/// Project one pooled cell: its kind and text, and its resolved colors.
pub fn cell_to_xml(book: &XlsBook, cell_index: u32) -> (r: Result<XmlCell, XlsError>)
    ensures
        cell_index >= book.cell@.len() ==> r == Err::<XmlCell, XlsError>(XlsError::MissingCell),
        cell_index < book.cell@.len() ==> ({
            let cell = book.cell@[cell_index as int];
            match r {
                Ok(x) => (spec_cell_text(*book, cell) matches Ok(t) && (x.kind == t.0 && x.value@
                    == t.1)) && (spec_cell_colors(*book, cell) matches Ok(c) && (
                x.foreground_color == c.0 && x.background_color == c.1)),
                Err(e) => spec_cell_text(*book, cell) == Err::<(XmlCellKind, Seq<u8>), _>(e)
                    || spec_cell_colors(*book, cell) == Err::<(u32, u32), _>(e),
            }
        }),
{
    if cell_index as usize >= book.cell.len() {
        return Err(XlsError::MissingCell);
    }
    let cell = book.cell[cell_index as usize];
    let (kind, value): (XmlCellKind, Vec<u8>) = if cell.kind == 0 {
        if (cell.data_index as usize) < book.bool_data.len() {
            (XmlCellKind::Bool, crate::xml::dec_u64(book.bool_data[cell.data_index as usize] as u64))
        } else {
            return Err(XlsError::MissingData);
        }
    } else if cell.kind == 1 {
        if (cell.data_index as usize) < book.string_data.len() {
            let sd = &book.string_data[cell.data_index as usize];
            (XmlCellKind::String, crate::bytes::copy_range(sd.as_slice(), 0, sd.len()))
        } else {
            return Err(XlsError::MissingData);
        }
    } else if cell.kind == 2 {
        if (cell.data_index as usize) < book.value_data.len() {
            (XmlCellKind::Value, crate::xml::dec_u64(book.value_data[cell.data_index as usize] as u64))
        } else {
            return Err(XlsError::MissingData);
        }
    } else if cell.kind == 3 {
        if (cell.data_index as usize) < book.date_data.len() {
            let sd = &book.date_data[cell.data_index as usize];
            (XmlCellKind::Date, crate::bytes::copy_range(sd.as_slice(), 0, sd.len()))
        } else {
            return Err(XlsError::MissingData);
        }
    } else if cell.kind == 4 {
        if (cell.data_index as usize) < book.color_data.len() {
            (XmlCellKind::Color, crate::xml::dec_u64(book.color_data[cell.data_index as usize] as u64))
        } else {
            return Err(XlsError::MissingData);
        }
    } else {
        return Err(XlsError::UnknownKind(cell.kind));
    };
    if cell.attribute_index as usize >= book.attribute.len() {
        return Err(XlsError::MissingAttribute);
    }
    if book.color_data.len() == 0 || book.color_data.len() > 255 {
        return Err(XlsError::MissingColor);
    }
    let a = book.attribute[cell.attribute_index as usize];
    let n = book.color_data.len() as u8;
    let fg = book.color_data[(a.fg_color_index % n) as usize];
    let bg = book.color_data[(a.bg_color_index % n) as usize];
    Ok(XmlCell { kind: kind, foreground_color: fg, background_color: bg, value: value })
}

/// The pooled-cell index stored for grid position `(x, y)` of a sheet, laid
/// out row-major.
pub fn sheet_cell_at(sheet: &XlsSheet, x: u32, y: u32) -> (r: Result<u32, XlsError>)
    requires
        x < sheet.cols,
        y < sheet.rows,
    ensures
        x + y * sheet.cols < sheet.cell_index@.len() ==> r == Ok::<u32, XlsError>(
            sheet.cell_index@[x + y * sheet.cols],
        ),
        x + y * sheet.cols >= sheet.cell_index@.len() ==> r == Err::<u32, XlsError>(
            XlsError::MissingCellIndex,
        ),
{
    proof {
        assert(x + y * sheet.cols <= u32::MAX as int + u32::MAX as int * u32::MAX as int)
            by (nonlinear_arith)
            requires
                x <= u32::MAX,
                y <= u32::MAX,
                sheet.cols <= u32::MAX,
        ;
    }
    let pos: u64 = x as u64 + (y as u64) * (sheet.cols as u64);
    if pos < sheet.cell_index.len() as u64 {
        Ok(sheet.cell_index[pos as usize])
    } else {
        Err(XlsError::MissingCellIndex)
    }
}

} // verus!
