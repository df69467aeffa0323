use vstd::prelude::*;
use crate::error::ColonnadeError;
use crate::text::{blanks, spaces};

verus! {

/// Alignments left-to-right one can apply to columns of text.
#[derive(Debug, Clone, Copy, PartialEq, Eq, Structural)]
pub enum Alignment {
    /// Left justification, the default alignment.
    Left,
    /// Right justification.
    Right,
    /// Centering.
    Center,
}

/// Vertical alignments of text within a column.
#[derive(Debug, Clone, Copy, PartialEq, Eq, Structural)]
pub enum VerticalAlignment {
    /// The default vertical alignment.
    Top,
    Middle,
    Bottom,
}

/// The mathematical content of a [`Column`]: its configuration and its current
/// width, as unbounded natural numbers.
pub struct ColumnModel {
    pub index: nat,
    pub alignment: Alignment,
    pub vertical_alignment: VerticalAlignment,
    pub left_margin: nat,
    pub width: nat,
    pub priority: nat,
    pub min_width: Option<nat>,
    pub max_width: Option<nat>,
    pub padding_left: nat,
    pub padding_right: nat,
    pub padding_top: nat,
    pub padding_bottom: nat,
    pub hyphenate: bool,
    pub adjusted: bool,
}

/// One change to the configuration of a column.
pub enum Setting {
    Priority(nat),
    MaxWidth(nat),
    MinWidth(nat),
    FixedWidth(nat),
    NoLimits,
    Align(Alignment),
    AlignVertically(VerticalAlignment),
    LeftMargin(nat),
    Padding(nat),
    PaddingHorizontal(nat),
    PaddingLeft(nat),
    PaddingRight(nat),
    PaddingVertical(nat),
    PaddingTop(nat),
    PaddingBottom(nat),
    Hyphenate(bool),
}

impl ColumnModel {
    /// The column a new table holds at position `index`, before the first
    /// column's margin is removed.
    pub open spec fn fresh(index: nat) -> ColumnModel {
        ColumnModel {
            index,
            alignment: Alignment::Left,
            vertical_alignment: VerticalAlignment::Top,
            left_margin: 1,
            width: 0,
            priority: usize::MAX as nat,
            min_width: None,
            max_width: None,
            padding_left: 0,
            padding_right: 0,
            padding_top: 0,
            padding_bottom: 0,
            hyphenate: true,
            adjusted: false,
        }
    }

    /// The bounds do not contradict each other.
    pub open spec fn limits_agree(self) -> bool {
        self.min_width is Some && self.max_width is Some ==> self.min_width->0
            <= self.max_width->0
    }

    /// Every number of the column is one a machine word can hold.
    pub open spec fn representable(self) -> bool {
        &&& self.index <= usize::MAX
        &&& self.left_margin <= usize::MAX
        &&& self.width <= usize::MAX
        &&& self.priority <= usize::MAX
        &&& (self.min_width is Some ==> self.min_width->0 <= usize::MAX)
        &&& (self.max_width is Some ==> self.max_width->0 <= usize::MAX)
        &&& self.padding_left <= usize::MAX
        &&& self.padding_right <= usize::MAX
        &&& self.padding_top <= usize::MAX
        &&& self.padding_bottom <= usize::MAX
    }

    /// The padding before and after the text together.
    pub open spec fn horizontal_padding(self) -> nat {
        self.padding_left + self.padding_right
    }

    /// The padding above and below the text together.
    pub open spec fn vertical_padding(self) -> nat {
        self.padding_top + self.padding_bottom
    }

    /// The least width the column may be given: its minimum width or its
    /// horizontal padding, whichever is greater.
    pub open spec fn minimum_width(self) -> nat {
        let p = self.horizontal_padding();
        match self.min_width {
            Some(m) => if m > p { m } else { p },
            None => p,
        }
    }

    /// The width of the column after clamping to its bounds.
    pub open spec fn effective_width(self) -> nat {
        let w = match self.max_width {
            Some(m) => if m < self.width { m } else { self.width },
            None => self.width,
        };
        let m = self.minimum_width();
        if m > w { m } else { w }
    }

    /// The effective width plus the left margin.
    pub open spec fn outer_width(self) -> nat {
        self.left_margin + self.effective_width()
    }

    /// The width left for text once the right padding is set aside.
    pub open spec fn inner_width(self) -> nat {
        if self.width >= self.padding_right {
            (self.width - self.padding_right) as nat
        } else {
            0
        }
    }

    /// Whether a split word is marked with a hyphen.
    pub open spec fn hyphenating(self) -> bool {
        self.hyphenate && self.inner_width() > 1
    }

    /// Whether the column is wider than its minimum.
    pub open spec fn is_shrinkable(self) -> bool {
        self.minimum_width() < self.width
    }

    /// Whether the column is narrower than its maximum width, or has none.
    pub open spec fn is_expandable(self) -> bool {
        match self.max_width {
            Some(m) => m > self.width,
            None => true,
        }
    }

    /// Whether the column refuses the change: a maximum width below its
    /// minimum width, or a minimum width above its maximum width.
    pub open spec fn refuses(self, setting: Setting) -> bool {
        match setting {
            Setting::MaxWidth(w) => self.min_width is Some && self.min_width->0 > w,
            Setting::MinWidth(w) => self.max_width is Some && self.max_width->0 < w,
            _ => false,
        }
    }

    /// The column after the change. Whatever the widths of the columns may
    /// depend on marks the column as not adjusted; a minimum width becomes the
    /// current width as well.
    pub open spec fn with(self, setting: Setting) -> ColumnModel {
        match setting {
            Setting::Priority(priority) => ColumnModel { priority, adjusted: false, ..self },
            Setting::MaxWidth(w) => ColumnModel { max_width: Some(w), adjusted: false, ..self },
            Setting::MinWidth(w) => ColumnModel {
                min_width: Some(w),
                width: w,
                adjusted: false,
                ..self
            },
            Setting::FixedWidth(w) => ColumnModel {
                min_width: Some(w),
                max_width: Some(w),
                width: w,
                adjusted: false,
                ..self
            },
            Setting::NoLimits => ColumnModel {
                min_width: None,
                max_width: None,
                adjusted: false,
                ..self
            },
            Setting::Align(alignment) => ColumnModel { alignment, ..self },
            Setting::AlignVertically(vertical_alignment) => ColumnModel {
                vertical_alignment,
                ..self
            },
            Setting::LeftMargin(left_margin) => ColumnModel {
                left_margin,
                adjusted: false,
                ..self
            },
            Setting::Padding(p) => ColumnModel {
                padding_left: p,
                padding_right: p,
                padding_top: p,
                padding_bottom: p,
                adjusted: false,
                ..self
            },
            Setting::PaddingHorizontal(p) => ColumnModel {
                padding_left: p,
                padding_right: p,
                adjusted: false,
                ..self
            },
            Setting::PaddingLeft(p) => ColumnModel { padding_left: p, adjusted: false, ..self },
            Setting::PaddingRight(p) => ColumnModel { padding_right: p, adjusted: false, ..self },
            Setting::PaddingVertical(p) => ColumnModel {
                padding_top: p,
                padding_bottom: p,
                ..self
            },
            Setting::PaddingTop(p) => ColumnModel { padding_top: p, ..self },
            Setting::PaddingBottom(p) => ColumnModel { padding_bottom: p, ..self },
            Setting::Hyphenate(hyphenate) => ColumnModel { hyphenate, ..self },
        }
    }

    /// The column with another width.
    pub open spec fn with_width(self, width: nat) -> ColumnModel {
        ColumnModel { width, ..self }
    }

    /// The column brought as close to `target` as its minimum allows.
    pub open spec fn shrink(self, target: nat) -> ColumnModel {
        let m = self.minimum_width();
        self.with_width(if m > target { m } else { target })
    }

    /// The column narrowed by `decrease`, but never below its minimum and never
    /// to nothing.
    pub open spec fn shrink_by(self, decrease: nat) -> ColumnModel {
        if self.is_shrinkable() {
            self.shrink(if decrease >= self.width { 1 } else { (self.width - decrease) as nat })
        } else {
            self
        }
    }

    /// The column widened towards `target`: no further than its maximum, and at
    /// least to its minimum.
    pub open spec fn expand(self, target: nat) -> ColumnModel {
        if target <= self.width {
            self
        } else if self.max_width is Some && self.max_width->0 < target {
            self.with_width(self.max_width->0)
        } else if self.minimum_width() > target {
            self.with_width(self.minimum_width())
        } else {
            self.with_width(target)
        }
    }

    /// The column widened by `increase`, as far as its bounds allow.
    pub open spec fn expand_by(self, increase: nat) -> ColumnModel {
        self.expand(self.width + increase)
    }

    /// The column with its width forgotten.
    pub open spec fn cleared(self) -> ColumnModel {
        ColumnModel { width: 0, adjusted: false, ..self }
    }

    /// The column marked as adjusted, or as not adjusted.
    pub open spec fn with_adjusted(self, adjusted: bool) -> ColumnModel {
        ColumnModel { adjusted, ..self }
    }
}

/// The settings of a column and what the table has noted of it: all that a
/// [`Column`] holds but its width. They are changed through the column.
#[derive(Debug, Clone, Copy)]
pub struct Configuration {
    index: usize,
    alignment: Alignment,
    vertical_alignment: VerticalAlignment,
    left_margin: usize,
    priority: usize,
    min_width: Option<usize>,
    max_width: Option<usize>,
    padding_left: usize,
    padding_right: usize,
    padding_top: usize,
    padding_bottom: usize,
    hyphenate: bool,
    adjusted: bool,
}

/// A struct holding formatting information for a particular column.
#[derive(Debug, Clone, Copy)]
pub struct Column {
    /// the width of the column excluding any left margin
    pub width: usize,
    /// everything else that is set for the column
    pub configuration: Configuration,
}

/// The number, if there is one, as a natural number.
pub open spec fn lift(o: Option<usize>) -> Option<nat> {
    match o {
        Some(v) => Some(v as nat),
        None => None,
    }
}

impl View for Configuration {
    type V = ColumnModel;

    /// The column that the configuration describes, without a width.
    closed spec fn view(&self) -> ColumnModel {
        ColumnModel {
            index: self.index as nat,
            alignment: self.alignment,
            vertical_alignment: self.vertical_alignment,
            left_margin: self.left_margin as nat,
            width: 0,
            priority: self.priority as nat,
            min_width: lift(self.min_width),
            max_width: lift(self.max_width),
            padding_left: self.padding_left as nat,
            padding_right: self.padding_right as nat,
            padding_top: self.padding_top as nat,
            padding_bottom: self.padding_bottom as nat,
            hyphenate: self.hyphenate,
            adjusted: self.adjusted,
        }
    }
}

impl View for Column {
    type V = ColumnModel;

    /// The column that the configuration describes, with the width that the
    /// column has.
    open spec fn view(&self) -> ColumnModel {
        self.configuration@.with_width(self.width as nat)
    }
}

/// The models of a list of columns.
pub open spec fn models(cols: Seq<Column>) -> Seq<ColumnModel> {
    Seq::new(cols.len(), |c: int| cols[c]@)
}

impl Column {
    /// The width in the model is the width that the column holds; what else
    /// the model says is said by the configuration.
    pub proof fn law_width(&self)
        ensures
            self@.width == self.width,
            self@ == self.configuration@.with_width(self.width as nat),
    {
    }

    /// Whatever a `Column` holds, its model holds numbers of machine size.
    pub proof fn lemma_representable(&self)
        ensures
            self@.representable(),
    {
    }

    /// A column with default values: left and top alignment, a left margin of
    /// one, the lowest priority, no bounds, no padding, hyphenation, and no
    /// width yet.
    pub fn default(index: usize) -> (c: Column)
        ensures
            c@ == ColumnModel::fresh(index as nat),
    {
        Column {
            width: 0,
            configuration: Configuration {
                index,
                alignment: Alignment::Left,
                vertical_alignment: VerticalAlignment::Top,
                left_margin: 1,
                priority: usize::MAX,
                min_width: None,
                max_width: None,
                padding_left: 0,
                padding_right: 0,
                padding_top: 0,
                padding_bottom: 0,
                hyphenate: true,
                adjusted: false,
            },
        }
    }

    /// Assign a particular priority to the column.
    ///
    /// Priority determines the order in which columns give up space when the
    /// viewport lacks sufficient space to display all columns without wrapping.
    /// Lower priority columns give up space first. Lower numbers confer higher
    /// priority; 0 is the highest priority.
    pub fn priority(&mut self, priority: usize) -> (r: &mut Self)
        ensures
            r@ == old(self)@.with(Setting::Priority(priority as nat)),
            *final(self) == *final(r),
    {
        self.configuration.adjusted = false;
        self.configuration.priority = priority;
        self
    }

    /// Assign a maximum width to the column. By default columns have no maximum
    /// width. A maximum below the column's minimum width is refused, and the
    /// column stays as it was.
    pub fn max_width(&mut self, max_width: usize) -> (r: Result<&mut Self, ColonnadeError>)
        ensures
            match r {
                Ok(c) => {
                    &&& !old(self)@.refuses(Setting::MaxWidth(max_width as nat))
                    &&& c@ == old(self)@.with(Setting::MaxWidth(max_width as nat))
                    &&& *final(self) == *final(c)
                },
                Err(e) => {
                    &&& old(self)@.refuses(Setting::MaxWidth(max_width as nat))
                    &&& e == ColonnadeError::MinGreaterThanMax(old(self)@.index as usize)
                    &&& *final(self) == *old(self)
                },
            },
    {
        let conflict = match self.configuration.min_width {
            Some(m) => m > max_width,
            None => false,
        };
        if conflict {
            Err(ColonnadeError::MinGreaterThanMax(self.configuration.index))
        } else {
            self.configuration.max_width = Some(max_width);
            self.configuration.adjusted = false;
            Ok(self)
        }
    }

    /// Assign a minimum width to the column, which also becomes its current
    /// width. By default columns have no minimum width. A minimum above the
    /// column's maximum width is refused, and the column stays as it was.
    pub fn min_width(&mut self, min_width: usize) -> (r: Result<&mut Self, ColonnadeError>)
        ensures
            match r {
                Ok(c) => {
                    &&& !old(self)@.refuses(Setting::MinWidth(min_width as nat))
                    &&& c@ == old(self)@.with(Setting::MinWidth(min_width as nat))
                    &&& *final(self) == *final(c)
                },
                Err(e) => {
                    &&& old(self)@.refuses(Setting::MinWidth(min_width as nat))
                    &&& e == ColonnadeError::MinGreaterThanMax(old(self)@.index as usize)
                    &&& *final(self) == *old(self)
                },
            },
    {
        let conflict = match self.configuration.max_width {
            Some(m) => m < min_width,
            None => false,
        };
        if conflict {
            return Err(ColonnadeError::MinGreaterThanMax(self.configuration.index));
        }
        self.width = min_width;
        self.configuration.min_width = Some(min_width);
        self.configuration.adjusted = false;
        Ok(self)
    }

    /// Assign the column the same maximum and minimum width, in place of any
    /// bounds it had. This cannot fail.
    pub fn fixed_width(&mut self, width: usize) -> (r: Result<&mut Self, ColonnadeError>)
        ensures
            r is Ok,
            r->Ok_0@ == old(self)@.with(Setting::FixedWidth(width as nat)),
            *final(self) == *final(r->Ok_0),
    {
        self.configuration.min_width = None;
        self.configuration.max_width = None;
        match self.min_width(width) {
            Err(e) => return Err(e),
            Ok(_) => (),
        }
        match self.max_width(width) {
            Err(e) => return Err(e),
            Ok(_) => (),
        }
        Ok(self)
    }

    /// Remove maximum or minimum column widths from the column.
    pub fn clear_limits(&mut self) -> (r: &mut Self)
        ensures
            r@ == old(self)@.with(Setting::NoLimits),
            *final(self) == *final(r),
    {
        self.configuration.max_width = None;
        self.configuration.min_width = None;
        self.configuration.adjusted = false;
        self
    }

    /// Assign the column an alignment. The default alignment is left.
    pub fn alignment(&mut self, alignment: Alignment) -> (r: &mut Self)
        ensures
            r@ == old(self)@.with(Setting::Align(alignment)),
            *final(self) == *final(r),
    {
        self.configuration.alignment = alignment;
        self
    }

    /// Assign the column a vertical alignment. The default alignment is top.
    pub fn vertical_alignment(&mut self, vertical_alignment: VerticalAlignment) -> (r: &mut Self)
        ensures
            r@ == old(self)@.with(Setting::AlignVertically(vertical_alignment)),
            *final(self) == *final(r),
    {
        self.configuration.vertical_alignment = vertical_alignment;
        self
    }

    /// Assign the column a left margin: a number of blank spaces before the
    /// content of the column. By default the first column has a left margin
    /// of 0 and the other columns have a left margin of 1.
    pub fn left_margin(&mut self, left_margin: usize) -> (r: &mut Self)
        ensures
            r@ == old(self)@.with(Setting::LeftMargin(left_margin as nat)),
            *final(self) == *final(r),
    {
        self.configuration.left_margin = left_margin;
        self.configuration.adjusted = false;
        self
    }

    /// Assign the column the same padding on all four sides.
    pub fn padding(&mut self, padding: usize) -> (r: &mut Self)
        ensures
            r@ == old(self)@.with(Setting::Padding(padding as nat)),
            *final(self) == *final(r),
    {
        self.configuration.padding_left = padding;
        self.configuration.padding_right = padding;
        self.configuration.padding_top = padding;
        self.configuration.padding_bottom = padding;
        self.configuration.adjusted = false;
        self
    }

    /// Assign the column a horizontal padding: space before and after the
    /// column's text.
    pub fn padding_horizontal(&mut self, padding: usize) -> (r: &mut Self)
        ensures
            r@ == old(self)@.with(Setting::PaddingHorizontal(padding as nat)),
            *final(self) == *final(r),
    {
        self.configuration.padding_left = padding;
        self.configuration.padding_right = padding;
        self.configuration.adjusted = false;
        self
    }

    /// Assign the column a left padding: space before the column's text.
    pub fn padding_left(&mut self, padding: usize) -> (r: &mut Self)
        ensures
            r@ == old(self)@.with(Setting::PaddingLeft(padding as nat)),
            *final(self) == *final(r),
    {
        self.configuration.padding_left = padding;
        self.configuration.adjusted = false;
        self
    }

    /// Assign the column a right padding: space after the column's text.
    pub fn padding_right(&mut self, padding: usize) -> (r: &mut Self)
        ensures
            r@ == old(self)@.with(Setting::PaddingRight(padding as nat)),
            *final(self) == *final(r),
    {
        self.configuration.padding_right = padding;
        self.configuration.adjusted = false;
        self
    }

    /// Assign the column a vertical padding: blank lines before and after the
    /// column's text. The widths of the columns do not depend on it.
    pub fn padding_vertical(&mut self, padding: usize) -> (r: &mut Self)
        ensures
            r@ == old(self)@.with(Setting::PaddingVertical(padding as nat)),
            *final(self) == *final(r),
    {
        self.configuration.padding_top = padding;
        self.configuration.padding_bottom = padding;
        self
    }

    /// Assign the column a top padding: blank lines before the column's text.
    pub fn padding_top(&mut self, padding: usize) -> (r: &mut Self)
        ensures
            r@ == old(self)@.with(Setting::PaddingTop(padding as nat)),
            *final(self) == *final(r),
    {
        self.configuration.padding_top = padding;
        self
    }

    /// Assign the column a bottom padding: blank lines after the column's text.
    pub fn padding_bottom(&mut self, padding: usize) -> (r: &mut Self)
        ensures
            r@ == old(self)@.with(Setting::PaddingBottom(padding as nat)),
            *final(self) == *final(r),
    {
        self.configuration.padding_bottom = padding;
        self
    }

    /// Toggle whether words too wide to fit in the column are hyphenated when
    /// split. By default this is `true`. If there is only 1 character of
    /// available space in a column, though, there is never any hyphenation.
    pub fn hyphenate(&mut self, hyphenate: bool) -> (r: &mut Self)
        ensures
            r@ == old(self)@.with(Setting::Hyphenate(hyphenate)),
            *final(self) == *final(r),
    {
        self.configuration.hyphenate = hyphenate;
        self
    }
}

impl Column {
    pub(crate) fn horizontal_padding(&self) -> (r: usize)
        requires
            self@.horizontal_padding() <= usize::MAX,
        ensures
            r == self@.horizontal_padding(),
    {
        self.configuration.padding_left + self.configuration.padding_right
    }

    pub(crate) fn vertical_padding(&self) -> (r: u128)
        ensures
            r == self@.vertical_padding(),
    {
        self.configuration.padding_top as u128 + self.configuration.padding_bottom as u128
    }

    pub(crate) fn minimum_width(&self) -> (r: usize)
        requires
            self@.horizontal_padding() <= usize::MAX,
        ensures
            r == self@.minimum_width(),
    {
        let w1 = self.horizontal_padding();
        match self.configuration.min_width {
            Some(w2) => if w2 > w1 { w2 } else { w1 },
            None => w1,
        }
    }

    pub(crate) fn effective_width(&self) -> (r: usize)
        requires
            self@.horizontal_padding() <= usize::MAX,
        ensures
            r == self@.effective_width(),
    {
        let w = match self.configuration.max_width {
            Some(m) => if m < self.width { m } else { self.width },
            None => self.width,
        };
        let m = self.minimum_width();
        if m > w { m } else { w }
    }

    /// The horizontal padding, which may be more than a machine word holds.
    pub(crate) fn wide_horizontal_padding(&self) -> (r: u128)
        ensures
            r == self@.horizontal_padding(),
    {
        self.configuration.padding_left as u128 + self.configuration.padding_right as u128
    }

    /// The minimum width, which may be more than a machine word holds.
    pub(crate) fn wide_minimum_width(&self) -> (r: u128)
        ensures
            r == self@.minimum_width(),
    {
        let p: u128 = self.wide_horizontal_padding();
        match self.configuration.min_width {
            Some(m) => if m as u128 > p { m as u128 } else { p },
            None => p,
        }
    }

    /// The effective width, which may be more than a machine word holds.
    pub(crate) fn wide_effective_width(&self) -> (r: u128)
        ensures
            r == self@.effective_width(),
    {
        let w: usize = match self.configuration.max_width {
            Some(m) => if m < self.width { m } else { self.width },
            None => self.width,
        };
        let m: u128 = self.wide_minimum_width();
        if m > w as u128 { m } else { w as u128 }
    }

    /// The outer width, which may be more than a machine word holds.
    pub(crate) fn wide_outer_width(&self) -> (r: u128)
        ensures
            r == self@.outer_width(),
            r <= 3 * usize::MAX,
    {
        self.configuration.left_margin as u128 + self.wide_effective_width()
    }

    pub(crate) fn inner_width(&self) -> (r: usize)
        ensures
            r == self@.inner_width(),
    {
        if self.width >= self.configuration.padding_right {
            self.width - self.configuration.padding_right
        } else {
            0
        }
    }

    pub(crate) fn hyphenating(&self) -> (b: bool)
        ensures
            b == self@.hyphenating(),
    {
        self.configuration.hyphenate && self.inner_width() > 1
    }

    pub(crate) fn is_shrinkable(&self) -> (b: bool)
        requires
            self@.horizontal_padding() <= usize::MAX,
        ensures
            b == self@.is_shrinkable(),
    {
        self.minimum_width() < self.width
    }

    /// Shrink as close to `width` as possible.
    pub(crate) fn shrink(&mut self, width: usize)
        requires
            old(self)@.horizontal_padding() <= usize::MAX,
        ensures
            final(self)@ == old(self)@.shrink(width as nat),
    {
        let m = self.minimum_width();
        self.width = if m > width { m } else { width };
    }

    /// Attempt to shrink by `decrease`; returns whether there was any shrinkage.
    pub(crate) fn shrink_by(&mut self, decrease: usize) -> (changed: bool)
        requires
            old(self)@.horizontal_padding() <= usize::MAX,
        ensures
            final(self)@ == old(self)@.shrink_by(decrease as nat),
            changed == (final(self)@.width != old(self)@.width),
    {
        if self.is_shrinkable() {
            // you can't shrink all the way to 0
            let target: usize = if decrease >= self.width { 1 } else { self.width - decrease };
            let before: usize = self.width;
            self.shrink(target);
            before != self.width
        } else {
            false
        }
    }

    pub(crate) fn is_expandable(&self) -> (b: bool)
        ensures
            b == self@.is_expandable(),
    {
        match self.configuration.max_width {
            Some(m) => m > self.width,
            None => true,
        }
    }

    /// Expands the column as much as possible to fit `width` and as much as
    /// necessary to match its minimum; returns whether the width changed.
    pub(crate) fn expand(&mut self, width: usize) -> (changed: bool)
        requires
            old(self)@.horizontal_padding() <= usize::MAX,
        ensures
            final(self)@ == old(self)@.expand(width as nat),
            changed == (final(self)@.width != old(self)@.width),
    {
        if width <= self.width {
            return false;
        }
        let over = match self.configuration.max_width {
            Some(m) => m < width,
            None => false,
        };
        let change: usize = if over {
            self.configuration.max_width.unwrap()
        } else if self.minimum_width() > width {
            self.minimum_width()
        } else {
            width
        };
        let changed = self.width != change;
        if changed {
            self.width = change;
        }
        changed
    }

    pub(crate) fn expand_by(&mut self, increase: usize) -> (changed: bool)
        requires
            old(self)@.horizontal_padding() <= usize::MAX,
            old(self)@.width + increase <= usize::MAX,
        ensures
            final(self)@ == old(self)@.expand_by(increase as nat),
            changed == (final(self)@.width != old(self)@.width),
    {
        let target: usize = self.width + increase;
        self.expand(target)
    }

    pub(crate) fn outer_width(&self) -> (r: usize)
        requires
            self@.horizontal_padding() <= usize::MAX,
            self@.outer_width() <= usize::MAX,
        ensures
            r == self@.outer_width(),
    {
        self.configuration.left_margin + self.effective_width()
    }

    /// A blank line as wide as the column.
    pub(crate) fn blank_line(&self) -> (s: String)
        ensures
            s@ == spaces(self@.width),
    {
        blanks(self.width)
    }

    /// The blanks of the column's left margin.
    pub(crate) fn margin(&self) -> (s: String)
        ensures
            s@ == spaces(self@.left_margin),
    {
        blanks(self.configuration.left_margin)
    }

    /// Forgets the width and marks the column as not adjusted.
    pub(crate) fn clear(&mut self)
        ensures
            final(self)@ == old(self)@.cleared(),
    {
        self.configuration.adjusted = false;
        self.width = 0;
    }

    pub(crate) fn set_adjusted(&mut self, adjusted: bool)
        ensures
            final(self)@ == old(self)@.with_adjusted(adjusted),
    {
        self.configuration.adjusted = adjusted;
    }

    pub(crate) fn set_width(&mut self, width: usize)
        ensures
            final(self)@ == old(self)@.with_width(width as nat),
    {
        self.width = width;
    }

    pub(crate) fn is_adjusted(&self) -> (b: bool)
        ensures
            b == self@.adjusted,
    {
        self.configuration.adjusted
    }

    /// The width of the column, excluding any left margin.
    pub fn current_width(&self) -> (r: usize)
        ensures
            r == self@.width,
    {
        self.width
    }

    pub(crate) fn margin_width(&self) -> (r: usize)
        ensures
            r == self@.left_margin,
    {
        self.configuration.left_margin
    }

    pub(crate) fn rank(&self) -> (r: usize)
        ensures
            r == self@.priority,
    {
        self.configuration.priority
    }

    pub(crate) fn lower_bound(&self) -> (r: Option<usize>)
        ensures
            lift(r) == self@.min_width,
    {
        self.configuration.min_width
    }

    pub(crate) fn horizontal(&self) -> (r: Alignment)
        ensures
            r == self@.alignment,
    {
        self.configuration.alignment
    }

    pub(crate) fn vertical(&self) -> (r: VerticalAlignment)
        ensures
            r == self@.vertical_alignment,
    {
        self.configuration.vertical_alignment
    }

    pub(crate) fn left_pad(&self) -> (r: usize)
        ensures
            r == self@.padding_left,
    {
        self.configuration.padding_left
    }

    pub(crate) fn right_pad(&self) -> (r: usize)
        ensures
            r == self@.padding_right,
    {
        self.configuration.padding_right
    }

    pub(crate) fn top_pad(&self) -> (r: usize)
        ensures
            r == self@.padding_top,
    {
        self.configuration.padding_top
    }

    pub(crate) fn bottom_pad(&self) -> (r: usize)
        ensures
            r == self@.padding_bottom,
    {
        self.configuration.padding_bottom
    }
}

/// One change to the configuration of a column, in numbers of machine size.
#[derive(Debug, Clone, Copy)]
pub enum Choice {
    Priority(usize),
    MaxWidth(usize),
    MinWidth(usize),
    FixedWidth(usize),
    NoLimits,
    Align(Alignment),
    AlignVertically(VerticalAlignment),
    LeftMargin(usize),
    Padding(usize),
    PaddingHorizontal(usize),
    PaddingLeft(usize),
    PaddingRight(usize),
    PaddingVertical(usize),
    PaddingTop(usize),
    PaddingBottom(usize),
    Hyphenate(bool),
}

impl View for Choice {
    type V = Setting;

    open spec fn view(&self) -> Setting {
        match *self {
            Choice::Priority(p) => Setting::Priority(p as nat),
            Choice::MaxWidth(w) => Setting::MaxWidth(w as nat),
            Choice::MinWidth(w) => Setting::MinWidth(w as nat),
            Choice::FixedWidth(w) => Setting::FixedWidth(w as nat),
            Choice::NoLimits => Setting::NoLimits,
            Choice::Align(a) => Setting::Align(a),
            Choice::AlignVertically(v) => Setting::AlignVertically(v),
            Choice::LeftMargin(m) => Setting::LeftMargin(m as nat),
            Choice::Padding(p) => Setting::Padding(p as nat),
            Choice::PaddingHorizontal(p) => Setting::PaddingHorizontal(p as nat),
            Choice::PaddingLeft(p) => Setting::PaddingLeft(p as nat),
            Choice::PaddingRight(p) => Setting::PaddingRight(p as nat),
            Choice::PaddingVertical(p) => Setting::PaddingVertical(p as nat),
            Choice::PaddingTop(p) => Setting::PaddingTop(p as nat),
            Choice::PaddingBottom(p) => Setting::PaddingBottom(p as nat),
            Choice::Hyphenate(h) => Setting::Hyphenate(h),
        }
    }
}

impl Column {
    /// Makes the change to the column, unless the column refuses it; then the
    /// column stays as it was.
    pub fn apply(&mut self, choice: Choice) -> (r: Result<(), ColonnadeError>)
        ensures
            match r {
                Ok(()) => !old(self)@.refuses(choice@) && final(self)@ == old(self)@.with(choice@),
                Err(e) => {
                    &&& old(self)@.refuses(choice@)
                    &&& e == ColonnadeError::MinGreaterThanMax(old(self)@.index as usize)
                    &&& final(self)@ == old(self)@
                },
            },
    {
        match choice {
            Choice::Priority(p) => {
                self.priority(p);
            },
            Choice::MaxWidth(w) => {
                match self.max_width(w) {
                    Err(e) => { return Err(e); },
                    Ok(_) => {},
                }
            },
            Choice::MinWidth(w) => {
                match self.min_width(w) {
                    Err(e) => { return Err(e); },
                    Ok(_) => {},
                }
            },
            Choice::FixedWidth(w) => {
                match self.fixed_width(w) {
                    Err(e) => { return Err(e); },
                    Ok(_) => {},
                }
            },
            Choice::NoLimits => {
                self.clear_limits();
            },
            Choice::Align(a) => {
                self.alignment(a);
            },
            Choice::AlignVertically(v) => {
                self.vertical_alignment(v);
            },
            Choice::LeftMargin(m) => {
                self.left_margin(m);
            },
            Choice::Padding(p) => {
                self.padding(p);
            },
            Choice::PaddingHorizontal(p) => {
                self.padding_horizontal(p);
            },
            Choice::PaddingLeft(p) => {
                self.padding_left(p);
            },
            Choice::PaddingRight(p) => {
                self.padding_right(p);
            },
            Choice::PaddingVertical(p) => {
                self.padding_vertical(p);
            },
            Choice::PaddingTop(p) => {
                self.padding_top(p);
            },
            Choice::PaddingBottom(p) => {
                self.padding_bottom(p);
            },
            Choice::Hyphenate(h) => {
                self.hyphenate(h);
            },
        }
        Ok(())
    }
}

} // verus!
