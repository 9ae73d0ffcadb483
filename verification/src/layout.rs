use vstd::prelude::*;

verus! {

/// The display widths of one visual row: one cell width per grapheme
/// cluster placed on that row, in left-to-right order.
#[derive(Debug)]
pub struct RowLayout {
    widths: Vec<usize>,
}

impl View for RowLayout {
    type V = Seq<usize>;

    closed spec fn view(&self) -> Seq<usize> {
        self.widths@
    }
}

impl RowLayout {
    pub fn new(widths: Vec<usize>) -> (r: RowLayout)
        ensures
            r@ == widths@,
    {
        RowLayout { widths }
    }

    pub fn widths(&self) -> (r: &Vec<usize>)
        ensures
            r@ == self@,
    {
        &self.widths
    }
}

/// The width sequences of a sequence of rows.
pub open spec fn rows_view(rs: Seq<RowLayout>) -> Seq<Seq<usize>> {
    rs.map_values(|r: RowLayout| r@)
}

/// One logical line's wrap decomposition: its visual rows, in top-to-bottom
/// order. A well-laid-out line has at least one row, even when it is empty.
#[derive(Debug)]
pub struct LineLayout {
    rows: Vec<RowLayout>,
}

impl View for LineLayout {
    type V = Seq<Seq<usize>>;

    closed spec fn view(&self) -> Seq<Seq<usize>> {
        rows_view(self.rows@)
    }
}

impl LineLayout {
    pub fn new(rows: Vec<RowLayout>) -> (r: LineLayout)
        ensures
            r@ == rows_view(rows@),
    {
        LineLayout { rows }
    }

    pub fn rows(&self) -> (r: &Vec<RowLayout>)
        ensures
            rows_view(r@) == self@,
    {
        &self.rows
    }
}

} // verus!
