//! A combo-box form field: a drop-down list widget whose state is read
//! from the document.  The field is modelled by the data the logic reads —
//! its option list and its flag word — so every accessor's behaviour is
//! stated exactly.

use vstd::prelude::*;

verus! {

/// The field may include an editable text box beside the drop-down list.
pub const FLAG_CHOICE_EDIT: u32 = 0x40000;

/// Option items should be sorted alphabetically by authoring tools.
pub const FLAG_CHOICE_SORT: u32 = 0x80000;

/// More than one option item may be selected at once.
pub const FLAG_CHOICE_MULTI_SELECT: u32 = 0x200000;

/// Entered text is exempt from spell checking.
pub const FLAG_TEXT_DO_NOT_SPELL_CHECK: u32 = 0x400000;

/// A new value is committed as soon as a selection is made.
pub const FLAG_CHOICE_COMMIT_ON_SELECTION_CHANGE: u32 = 0x4000000;

/// One selectable option of a combo box.
pub struct PdfFormFieldOption {
    /// Displayed label, when the document provides one.
    pub label: Option<String>,
    /// Whether this option is currently selected.
    pub is_set: bool,
}

/// Mathematical image of an option.
pub ghost struct PdfFormFieldOptionV {
    pub label: Option<Seq<char>>,
    pub is_set: bool,
}

impl View for PdfFormFieldOption {
    type V = PdfFormFieldOptionV;

    open spec fn view(&self) -> PdfFormFieldOptionV {
        PdfFormFieldOptionV {
            label: match self.label {
                Some(ref s) => Some(s@),
                None => None,
            },
            is_set: self.is_set,
        }
    }
}

/// The collection of selectable options of a combo box.
pub struct PdfFormFieldOptions {
    /// The options, in document order.
    pub options: Vec<PdfFormFieldOption>,
}

impl PdfFormFieldOptions {
    /// The options' mathematical image.
    pub open spec fn view_opts(&self) -> Seq<PdfFormFieldOptionV> {
        self.options@.map_values(|o: PdfFormFieldOption| o@)
    }
}

/// The label of the first selected option, when there is a selected
/// option and it has a label.
pub open spec fn spec_selected_label(opts: Seq<PdfFormFieldOptionV>) -> Option<Seq<char>>
    decreases opts.len(),
{
    if opts.len() == 0 {
        None
    } else if opts[0].is_set {
        opts[0].label
    } else {
        spec_selected_label(opts.drop_first())
    }
}

/// A single form field of combo-box type: an interactive drop-down list
/// widget that lets the user select a value from a list of options or
/// type one into a text field.
pub struct PdfFormComboBoxField {
    /// Handle of the form the field belongs to.
    pub form_handle: u64,
    /// Handle of the annotation wrapping the field.
    pub annotation_handle: u64,
    /// The selectable options.
    pub options: PdfFormFieldOptions,
    /// The field's flag word.
    pub flags: u32,
}

impl PdfFormComboBoxField {
    /// Wraps the field state read from a document.
    pub fn from_pdfium(
        form_handle: u64,
        annotation_handle: u64,
        options: PdfFormFieldOptions,
        flags: u32,
    ) -> (r: Self)
        ensures
            r.form_handle == form_handle,
            r.annotation_handle == annotation_handle,
            r.options.view_opts() == options.view_opts(),
            r.flags == flags,
    {
        PdfFormComboBoxField { form_handle, annotation_handle, options, flags }
    }

    /// Returns the collection of selectable options in this field.
    pub fn options(&self) -> (r: &PdfFormFieldOptions)
        ensures
            r.view_opts() == self.options.view_opts(),
    {
        &self.options
    }

    /// Returns the displayed label for the currently selected option, if
    /// any option is selected and carries a label.
    pub fn value(&self) -> (r: Option<String>)
        ensures
            (match r {
                Some(s) => Some::<Seq<char>>(s@),
                None => None::<Seq<char>>,
            }) == spec_selected_label(self.options.view_opts()),
    {
        let n = self.options.options.len();
        let mut i: usize = 0;
        assert(self.options.view_opts().skip(0) =~= self.options.view_opts());
        while i < n
            invariant
                i <= n == self.options.options@.len(),
                spec_selected_label(self.options.view_opts()) == spec_selected_label(
                    self.options.view_opts().skip(i as int),
                ),
            decreases n - i,
        {
            proof {
                assert(self.options.view_opts().skip(i as int)[0] == self.options.options@[
                    i as int]@);
                assert(self.options.view_opts().skip(i as int).drop_first()
                    =~= self.options.view_opts().skip(i + 1));
            }
            if self.options.options[i].is_set {
                return match &self.options.options[i].label {
                    Some(l) => Some(l.clone()),
                    None => None,
                };
            }
            i = i + 1;
        }
        assert(self.options.view_opts().skip(n as int) =~= Seq::<PdfFormFieldOptionV>::empty());
        None
    }

    /// True when this combo box also includes an editable text box; when
    /// false, it only offers the drop-down list.
    pub fn has_editable_text_box(&self) -> (r: bool)
        ensures
            r == (self.flags & FLAG_CHOICE_EDIT != 0),
    {
        self.flags & FLAG_CHOICE_EDIT != 0
    }

    /// True when the option items should be sorted alphabetically; meant
    /// for authoring tools, not viewers.
    pub fn is_sorted(&self) -> (r: bool)
        ensures
            r == (self.flags & FLAG_CHOICE_SORT != 0),
    {
        self.flags & FLAG_CHOICE_SORT != 0
    }

    /// True when more than one option item may be selected at once.
    pub fn is_multiselect(&self) -> (r: bool)
        ensures
            r == (self.flags & FLAG_CHOICE_MULTI_SELECT != 0),
    {
        self.flags & FLAG_CHOICE_MULTI_SELECT != 0
    }

    /// True when text typed into the editable box should be spell
    /// checked; meaningful only together with the editable text box flag.
    pub fn is_spell_checked(&self) -> (r: bool)
        ensures
            r == (self.flags & FLAG_TEXT_DO_NOT_SPELL_CHECK == 0),
    {
        self.flags & FLAG_TEXT_DO_NOT_SPELL_CHECK == 0
    }

    /// True when a new value is committed as soon as a selection is made
    /// with the pointing device, without waiting for the user to leave
    /// the field.
    pub fn is_commit_on_selection_change(&self) -> (r: bool)
        ensures
            r == (self.flags & FLAG_CHOICE_COMMIT_ON_SELECTION_CHANGE != 0),
    {
        self.flags & FLAG_CHOICE_COMMIT_ON_SELECTION_CHANGE != 0
    }
}

} // verus!
