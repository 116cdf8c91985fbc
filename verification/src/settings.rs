//! The serial settings panel of the terminal interface: a list of fields
//! and actions, with popups to edit a field's text, pick one of its
//! choices, confirm leaving with unsaved changes, or show a message.
//!
//! Handling a key gives a [`SettingsStep`]: the panel afterwards, the new
//! status line, and the profile to save or to apply, which the program
//! does.
use vstd::prelude::*;

use crate::host_session::{char_len_utf8, char_utf8_len, lemma_utf8_len_push, utf8_len};
use crate::interactive::{SerialFlowControl, SerialParity, SerialProfile, TerminalKey, TerminalKeyCode};
use crate::text::{
    decimal_chars, decimal_string, parse_decimal, parse_unsigned, push_str, str_chars, str_eq,
    string_from_chars, trim_chars, trim_string,
};

verus! {

/// A field of the serial profile.
#[derive(Clone, Copy, Debug, PartialEq, Eq, Structural)]
pub enum SettingsField {
    Port,
    Baud,
    DataBits,
    StopBits,
    Parity,
    FlowControl,
}

/// An action below the fields.
#[derive(Clone, Copy, Debug, PartialEq, Eq, Structural)]
pub enum SettingsAction {
    Apply,
    SaveDefaults,
    Discard,
}

/// A row of the panel.
#[derive(Clone, Copy, Debug, PartialEq, Eq, Structural)]
pub enum SettingsRow {
    Field(SettingsField),
    Action(SettingsAction),
}

/// A popup over the panel. The cursor of a text input is a byte offset
/// into its value.
#[derive(Clone, Debug, PartialEq, Eq)]
pub enum SettingsPopup {
    TextInput { field: SettingsField, value: String, cursor: usize },
    ChoiceList { field: SettingsField, selected: usize },
    ConfirmExit { selected: usize },
    Message(String),
}

/// The panel: the profile being edited, the profile it started from (or
/// last saved), the selected row and the open popup.
#[derive(Clone, Debug, PartialEq, Eq)]
pub struct SettingsState {
    pub draft: SerialProfile,
    pub baseline: SerialProfile,
    pub selected: usize,
    pub popup: Option<SettingsPopup>,
}

/// A serial profile as values.
pub struct ProfileView {
    pub port: Seq<char>,
    pub baud: u32,
    pub data_bits: u8,
    pub stop_bits: u8,
    pub parity: SerialParity,
    pub flow_control: SerialFlowControl,
}

pub open spec fn profile_view(p: SerialProfile) -> ProfileView {
    ProfileView {
        port: p.port@,
        baud: p.baud,
        data_bits: p.data_bits,
        stop_bits: p.stop_bits,
        parity: p.parity,
        flow_control: p.flow_control,
    }
}

/// A popup as values.
pub enum PopupView {
    TextInput { field: SettingsField, value: Seq<char>, cursor: nat },
    ChoiceList { field: SettingsField, selected: nat },
    ConfirmExit { selected: nat },
    Message(Seq<char>),
}

impl View for SettingsPopup {
    type V = PopupView;

    open spec fn view(&self) -> PopupView {
        match self {
            SettingsPopup::TextInput { field, value, cursor } => PopupView::TextInput {
                field: *field,
                value: value@,
                cursor: *cursor as nat,
            },
            SettingsPopup::ChoiceList { field, selected } => PopupView::ChoiceList {
                field: *field,
                selected: *selected as nat,
            },
            SettingsPopup::ConfirmExit { selected } => PopupView::ConfirmExit { selected: *selected as nat },
            SettingsPopup::Message(m) => PopupView::Message(m@),
        }
    }
}

pub open spec fn popup_view(p: Option<SettingsPopup>) -> Option<PopupView> {
    match p {
        Some(p) => Some(p@),
        None => None,
    }
}

/// The panel as values.
pub struct SettingsView {
    pub draft: ProfileView,
    pub baseline: ProfileView,
    pub selected: nat,
    pub popup: Option<PopupView>,
}

impl View for SettingsState {
    type V = SettingsView;

    open spec fn view(&self) -> SettingsView {
        SettingsView {
            draft: profile_view(self.draft),
            baseline: profile_view(self.baseline),
            selected: self.selected as nat,
            popup: popup_view(self.popup),
        }
    }
}

/// The rows of the panel, top to bottom.
pub open spec fn settings_rows() -> Seq<SettingsRow> {
    seq![
        SettingsRow::Field(SettingsField::Port),
        SettingsRow::Field(SettingsField::Baud),
        SettingsRow::Field(SettingsField::DataBits),
        SettingsRow::Field(SettingsField::StopBits),
        SettingsRow::Field(SettingsField::Parity),
        SettingsRow::Field(SettingsField::FlowControl),
        SettingsRow::Action(SettingsAction::Apply),
        SettingsRow::Action(SettingsAction::SaveDefaults),
        SettingsRow::Action(SettingsAction::Discard),
    ]
}

/// How many choices a field offers in a list; none for the text fields.
pub open spec fn choice_len(field: SettingsField) -> nat {
    match field {
        SettingsField::DataBits => 4,
        SettingsField::StopBits => 2,
        SettingsField::Parity => 3,
        SettingsField::FlowControl => 3,
        _ => 0,
    }
}

/// The name of a field.
pub open spec fn field_label(field: SettingsField) -> Seq<char> {
    match field {
        SettingsField::Port => "Serial Device"@,
        SettingsField::Baud => "Baud Rate"@,
        SettingsField::DataBits => "Data Bits"@,
        SettingsField::StopBits => "Stop Bits"@,
        SettingsField::Parity => "Parity"@,
        SettingsField::FlowControl => "Flow Control"@,
    }
}

/// The name of an action.
pub open spec fn action_label(action: SettingsAction) -> Seq<char> {
    match action {
        SettingsAction::Apply => "Apply And Reconnect"@,
        SettingsAction::SaveDefaults => "Save As Defaults"@,
        SettingsAction::Discard => "Discard And Close"@,
    }
}

/// The value of a field as the panel shows it.
pub open spec fn field_value(field: SettingsField, p: ProfileView) -> Seq<char> {
    match field {
        SettingsField::Port => p.port,
        SettingsField::Baud => decimal_chars(p.baud as nat),
        SettingsField::DataBits => decimal_chars(p.data_bits as nat),
        SettingsField::StopBits => decimal_chars(p.stop_bits as nat),
        SettingsField::Parity => p.parity.word(),
        SettingsField::FlowControl => p.flow_control.word(),
    }
}

/// The choice of a list field that the profile holds; the last one for
/// data bits outside 5 to 8, the first one otherwise.
pub open spec fn choice_index(field: SettingsField, p: ProfileView) -> nat {
    match field {
        SettingsField::DataBits => if 5 <= p.data_bits <= 8 { (p.data_bits - 5) as nat } else { 3 },
        SettingsField::StopBits => if p.stop_bits == 2 { 1 } else { 0 },
        SettingsField::Parity => match p.parity {
            SerialParity::NoParity => 0,
            SerialParity::Odd => 1,
            SerialParity::Even => 2,
        },
        SettingsField::FlowControl => match p.flow_control {
            SerialFlowControl::NoFlowControl => 0,
            SerialFlowControl::Software => 1,
            SerialFlowControl::Hardware => 2,
        },
        _ => 0,
    }
}

/// The parity of a list position, the last one past the end.
pub open spec fn parity_at(i: nat) -> SerialParity {
    if i == 0 {
        SerialParity::NoParity
    } else if i == 1 {
        SerialParity::Odd
    } else {
        SerialParity::Even
    }
}

/// The flow control of a list position, the last one past the end.
pub open spec fn flow_at(i: nat) -> SerialFlowControl {
    if i == 0 {
        SerialFlowControl::NoFlowControl
    } else if i == 1 {
        SerialFlowControl::Software
    } else {
        SerialFlowControl::Hardware
    }
}

/// The profile with a list field set to a choice, the last choice for a
/// position past the end.
pub open spec fn with_choice(field: SettingsField, selected: nat, p: ProfileView) -> ProfileView {
    match field {
        SettingsField::DataBits => ProfileView { data_bits: (5 + if selected < 3 { selected } else { 3 }) as u8, ..p },
        SettingsField::StopBits => ProfileView { stop_bits: (1 + if selected < 1 { selected } else { 1 }) as u8, ..p },
        SettingsField::Parity => ProfileView { parity: parity_at(selected), ..p },
        SettingsField::FlowControl => ProfileView { flow_control: flow_at(selected), ..p },
        _ => p,
    }
}

/// The profile after the text of a field is accepted, or why it is not:
/// the port is the trimmed text, which must not be empty; the baud rate
/// is the trimmed text read as a number greater than 0.
pub open spec fn committed(field: SettingsField, value: Seq<char>, p: ProfileView) -> Result<ProfileView, Seq<char>> {
    match field {
        SettingsField::Port => if trim_chars(value).len() == 0 {
            Err("port cannot be empty"@)
        } else {
            Ok(ProfileView { port: trim_chars(value), ..p })
        },
        SettingsField::Baud => match parse_unsigned(trim_chars(value), u32::MAX as nat) {
            None => Err("invalid baud value: "@ + value),
            Some(b) => if b == 0 {
                Err("baud must be greater than 0"@)
            } else {
                Ok(ProfileView { baud: b as u32, ..p })
            },
        },
        _ => Ok(p),
    }
}

/// The popup that Enter on a field opens: its text with the cursor at the
/// end for the port and the baud rate, its list at the current choice
/// otherwise.
pub open spec fn opened_popup(field: SettingsField, p: ProfileView) -> PopupView {
    match field {
        SettingsField::Port | SettingsField::Baud => PopupView::TextInput {
            field,
            value: field_value(field, p),
            cursor: utf8_len(field_value(field, p)),
        },
        _ => PopupView::ChoiceList { field, selected: choice_index(field, p) },
    }
}

/// Whether `b` is the byte offset at which one of the characters starts
/// (or the end of the text).
pub open spec fn char_boundary(s: Seq<char>, b: int) -> bool {
    exists|k: int| 0 <= k <= s.len() && #[trigger] utf8_len(s.subrange(0, k)) == b
}

/// The position of the character that starts at byte offset `b`.
pub open spec fn boundary_index(s: Seq<char>, b: int) -> int {
    choose|k: int| 0 <= k <= s.len() && #[trigger] utf8_len(s.subrange(0, k)) == b
}

proof fn lemma_prefix_len_step(s: Seq<char>, k: int)
    requires
        0 <= k < s.len(),
    ensures
        utf8_len(s.subrange(0, k + 1)) == utf8_len(s.subrange(0, k)) + char_utf8_len(s[k]),
{
    lemma_utf8_len_push(s.subrange(0, k), s[k]);
    assert(s.subrange(0, k).push(s[k]) =~= s.subrange(0, k + 1));
}

/// Byte offsets of character positions grow strictly.
proof fn lemma_prefix_len_strict(s: Seq<char>, i: int, j: int)
    requires
        0 <= i < j <= s.len(),
    ensures
        utf8_len(s.subrange(0, i)) < utf8_len(s.subrange(0, j)),
    decreases j - i,
{
    lemma_prefix_len_step(s, j - 1);
    if i < j - 1 {
        lemma_prefix_len_strict(s, i, j - 1);
    }
}

/// At most one character position has a given byte offset.
proof fn lemma_boundary_unique(s: Seq<char>, k: int, b: int)
    requires
        0 <= k <= s.len(),
        utf8_len(s.subrange(0, k)) == b,
    ensures
        char_boundary(s, b),
        boundary_index(s, b) == k,
{
    let j = boundary_index(s, b);
    assert(utf8_len(s.subrange(0, k)) == b);
    if j < k {
        lemma_prefix_len_strict(s, j, k);
    } else if k < j {
        lemma_prefix_len_strict(s, k, j);
    }
}

proof fn lemma_ascii_utf8_len(s: Seq<char>)
    requires
        forall|i: int| 0 <= i < s.len() ==> (#[trigger] s[i] as u32) < 0x80,
    ensures
        utf8_len(s) == s.len(),
    decreases s.len(),
{
    if s.len() > 0 {
        assert(forall|i: int| 0 <= i < s.drop_first().len() ==> #[trigger] s.drop_first()[i] == s[i + 1]);
        lemma_ascii_utf8_len(s.drop_first());
    }
}

proof fn lemma_decimal_ascii(n: nat)
    ensures
        forall|i: int| 0 <= i < decimal_chars(n).len() ==> (#[trigger] decimal_chars(n)[i] as u32) < 0x80,
    decreases n,
{
    if n >= 10 {
        lemma_decimal_ascii(n / 10);
        lemma_digit_ascii((n % 10) as int);
        let prev = decimal_chars(n / 10);
        assert(decimal_chars(n) == prev.push(crate::text::digit_char((n % 10) as int)));
        assert forall|i: int| 0 <= i < decimal_chars(n).len() implies (#[trigger] decimal_chars(n)[i] as u32) < 0x80 by {
            if i < prev.len() {
                assert(decimal_chars(n)[i] == prev[i]);
            }
        }
    } else {
        lemma_digit_ascii(n as int);
        assert(decimal_chars(n) == seq![crate::text::digit_char(n as int)]);
    }
}

proof fn lemma_digit_ascii(d: int)
    requires
        0 <= d < 10,
    ensures
        (crate::text::digit_char(d) as u32) < 0x80,
{
    let b = (d + 48) as u8;
    assert(b < 0x80);
}

/// The length in bytes of the text, which must fit in `usize`.
fn byte_len(s: &str) -> (r: usize)
    requires
        utf8_len(s@) <= usize::MAX,
    ensures
        r as nat == utf8_len(s@),
{
    let chars = str_chars(s);
    let mut total: usize = 0;
    let mut i: usize = 0;
    assert(chars@.subrange(0, 0) =~= Seq::<char>::empty());
    while i < chars.len()
        invariant
            i <= chars@.len(),
            chars@ == s@,
            utf8_len(s@) <= usize::MAX,
            total as nat == utf8_len(chars@.subrange(0, i as int)),
        decreases chars@.len() - i,
    {
        proof {
            lemma_prefix_len_step(chars@, i as int);
            if i + 1 < chars@.len() {
                lemma_prefix_len_strict(chars@, i as int + 1, chars@.len() as int);
            }
            assert(chars@.subrange(0, chars@.len() as int) =~= chars@);
        }
        total = total + char_len_utf8(chars[i]);
        i = i + 1;
    }
    assert(chars@.subrange(0, i as int) =~= chars@);
    total
}

/// The position of the character that starts at byte offset `b`, if one
/// does (or `b` is the end of the text).
fn char_at_byte(chars: &Vec<char>, b: usize) -> (r: Option<usize>)
    ensures
        match r {
            Some(k) => k <= chars@.len() && utf8_len(chars@.subrange(0, k as int)) == b
                && char_boundary(chars@, b as int) && boundary_index(chars@, b as int) == k,
            None => !char_boundary(chars@, b as int),
        },
{
    let mut total: usize = 0;
    let mut i: usize = 0;
    assert(chars@.subrange(0, 0) =~= Seq::<char>::empty());
    while i < chars.len() && total < b
        invariant
            i <= chars@.len(),
            total as nat == utf8_len(chars@.subrange(0, i as int)),
            total <= b,
        decreases chars@.len() - i,
    {
        proof {
            lemma_prefix_len_step(chars@, i as int);
        }
        let w = char_len_utf8(chars[i]);
        if w > b - total {
            proof {
                assert forall|k: int| 0 <= k <= chars@.len() implies #[trigger] utf8_len(chars@.subrange(0, k)) != b by {
                    if k <= i {
                        if k < i {
                            lemma_prefix_len_strict(chars@, k, i as int);
                        }
                    } else {
                        if k > i + 1 {
                            lemma_prefix_len_strict(chars@, i as int + 1, k);
                        }
                    }
                }
            }
            return None;
        }
        total = total + w;
        i = i + 1;
    }
    if total == b {
        proof {
            lemma_boundary_unique(chars@, i as int, b as int);
        }
        Some(i)
    } else {
        proof {
            assert(i == chars@.len());
            assert forall|k: int| 0 <= k <= chars@.len() implies #[trigger] utf8_len(chars@.subrange(0, k)) != b by {
                if k < i {
                    lemma_prefix_len_strict(chars@, k, i as int);
                }
            }
        }
        None
    }
}

impl SettingsState {
    /// A panel for `profile`, with nothing changed yet.
    pub fn new(profile: SerialProfile) -> (r: Self)
        ensures
            r@ == (SettingsView {
                draft: profile_view(profile),
                baseline: profile_view(profile),
                selected: 0,
                popup: None,
            }),
    {
        SettingsState { draft: copy_profile(&profile), baseline: profile, selected: 0, popup: None }
    }

    /// Whether the draft differs from the baseline.
    pub fn is_dirty(&self) -> (r: bool)
        ensures
            r == (profile_view(self.draft) != profile_view(self.baseline)),
    {
        !profiles_equal(&self.draft, &self.baseline)
    }

    /// The rows of the panel.
    pub fn rows(&self) -> (r: [SettingsRow; 9])
        ensures
            r@ == settings_rows(),
    {
        let r = [
            SettingsRow::Field(SettingsField::Port),
            SettingsRow::Field(SettingsField::Baud),
            SettingsRow::Field(SettingsField::DataBits),
            SettingsRow::Field(SettingsField::StopBits),
            SettingsRow::Field(SettingsField::Parity),
            SettingsRow::Field(SettingsField::FlowControl),
            SettingsRow::Action(SettingsAction::Apply),
            SettingsRow::Action(SettingsAction::SaveDefaults),
            SettingsRow::Action(SettingsAction::Discard),
        ];
        assert(r@ =~= settings_rows());
        r
    }

    /// The selected row; the last one when the selection is past it.
    pub fn selected_row(&self) -> (r: SettingsRow)
        ensures
            r == settings_rows()[if self.selected < 8 { self.selected as int } else { 8 }],
    {
        let rows = self.rows();
        let i = if self.selected < 8 { self.selected } else { 8 };
        rows[i]
    }
}

/// A copy of a profile.
pub fn copy_profile(p: &SerialProfile) -> (r: SerialProfile)
    ensures
        profile_view(r) == profile_view(*p),
{
    SerialProfile {
        port: p.port.clone(),
        baud: p.baud,
        data_bits: p.data_bits,
        stop_bits: p.stop_bits,
        parity: p.parity,
        flow_control: p.flow_control,
    }
}

/// Whether two profiles hold the same settings.
pub fn profiles_equal(a: &SerialProfile, b: &SerialProfile) -> (r: bool)
    ensures
        r == (profile_view(*a) == profile_view(*b)),
{
    str_eq(a.port.as_str(), b.port.as_str()) && a.baud == b.baud && a.data_bits == b.data_bits
        && a.stop_bits == b.stop_bits && a.parity == b.parity && a.flow_control == b.flow_control
}

pub fn settings_field_label(field: SettingsField) -> (r: &'static str)
    ensures
        r@ == field_label(field),
{
    match field {
        SettingsField::Port => "Serial Device",
        SettingsField::Baud => "Baud Rate",
        SettingsField::DataBits => "Data Bits",
        SettingsField::StopBits => "Stop Bits",
        SettingsField::Parity => "Parity",
        SettingsField::FlowControl => "Flow Control",
    }
}

pub fn settings_action_label(action: SettingsAction) -> (r: &'static str)
    ensures
        r@ == action_label(action),
{
    match action {
        SettingsAction::Apply => "Apply And Reconnect",
        SettingsAction::SaveDefaults => "Save As Defaults",
        SettingsAction::Discard => "Discard And Close",
    }
}

pub fn settings_field_value(field: SettingsField, profile: &SerialProfile) -> (r: String)
    ensures
        r@ == field_value(field, profile_view(*profile)),
{
    match field {
        SettingsField::Port => profile.port.clone(),
        SettingsField::Baud => decimal_string(profile.baud as u64),
        SettingsField::DataBits => decimal_string(profile.data_bits as u64),
        SettingsField::StopBits => decimal_string(profile.stop_bits as u64),
        SettingsField::Parity => profile.parity.label().to_owned(),
        SettingsField::FlowControl => profile.flow_control.label().to_owned(),
    }
}

/// The label of a list field's choice at a position.
pub open spec fn choice_label(field: SettingsField, i: nat) -> Seq<char> {
    match field {
        SettingsField::DataBits => decimal_chars(5 + i),
        SettingsField::StopBits => decimal_chars(1 + i),
        SettingsField::Parity => parity_at(i).word(),
        SettingsField::FlowControl => flow_at(i).word(),
        _ => Seq::empty(),
    }
}

/// The labels of a list field's choices, in order.
pub fn settings_choice_labels(field: SettingsField) -> (r: Vec<String>)
    ensures
        r@.len() == choice_len(field),
        forall|i: int| 0 <= i < r@.len() ==> #[trigger] r@[i]@ == choice_label(field, i as nat),
{
    let mut out: Vec<String> = Vec::new();
    match field {
        SettingsField::DataBits => {
            out.push(decimal_string(5));
            out.push(decimal_string(6));
            out.push(decimal_string(7));
            out.push(decimal_string(8));
        },
        SettingsField::StopBits => {
            out.push(decimal_string(1));
            out.push(decimal_string(2));
        },
        SettingsField::Parity => {
            out.push(SerialParity::NoParity.label().to_owned());
            out.push(SerialParity::Odd.label().to_owned());
            out.push(SerialParity::Even.label().to_owned());
        },
        SettingsField::FlowControl => {
            out.push(SerialFlowControl::NoFlowControl.label().to_owned());
            out.push(SerialFlowControl::Software.label().to_owned());
            out.push(SerialFlowControl::Hardware.label().to_owned());
        },
        _ => {},
    }
    out
}

pub fn settings_choice_len(field: SettingsField) -> (r: usize)
    ensures
        r as nat == choice_len(field),
{
    match field {
        SettingsField::DataBits => 4,
        SettingsField::StopBits => 2,
        SettingsField::Parity => 3,
        SettingsField::FlowControl => 3,
        _ => 0,
    }
}

pub fn current_choice_index(field: SettingsField, profile: &SerialProfile) -> (r: usize)
    ensures
        r as nat == choice_index(field, profile_view(*profile)),
{
    match field {
        SettingsField::DataBits => if 5 <= profile.data_bits && profile.data_bits <= 8 {
            (profile.data_bits - 5) as usize
        } else {
            3
        },
        SettingsField::StopBits => if profile.stop_bits == 2 { 1 } else { 0 },
        SettingsField::Parity => match profile.parity {
            SerialParity::NoParity => 0,
            SerialParity::Odd => 1,
            SerialParity::Even => 2,
        },
        SettingsField::FlowControl => match profile.flow_control {
            SerialFlowControl::NoFlowControl => 0,
            SerialFlowControl::Software => 1,
            SerialFlowControl::Hardware => 2,
        },
        _ => 0,
    }
}

/// Sets a list field to a choice.
pub fn apply_settings_choice(field: SettingsField, selected: usize, profile: &mut SerialProfile)
    ensures
        profile_view(*final(profile)) == with_choice(field, selected as nat, profile_view(*old(profile))),
{
    match field {
        SettingsField::DataBits => {
            profile.data_bits = if selected < 3 { 5 + selected as u8 } else { 8 };
        },
        SettingsField::StopBits => {
            profile.stop_bits = if selected < 1 { 1 } else { 2 };
        },
        SettingsField::Parity => {
            profile.parity = if selected == 0 {
                SerialParity::NoParity
            } else if selected == 1 {
                SerialParity::Odd
            } else {
                SerialParity::Even
            };
        },
        SettingsField::FlowControl => {
            profile.flow_control = if selected == 0 {
                SerialFlowControl::NoFlowControl
            } else if selected == 1 {
                SerialFlowControl::Software
            } else {
                SerialFlowControl::Hardware
            };
        },
        _ => {},
    }
}

/// Accepts the text of a field into the profile, or says why not; the
/// profile is unchanged on an error.
pub fn commit_settings_text(field: SettingsField, value: &str, profile: &mut SerialProfile) -> (r: Result<(), String>)
    ensures
        match committed(field, value@, profile_view(*old(profile))) {
            Ok(p) => r is Ok && profile_view(*final(profile)) == p,
            Err(e) => r matches Err(m) && m@ == e && profile_view(*final(profile)) == profile_view(*old(profile)),
        },
{
    match field {
        SettingsField::Port => {
            let trimmed = trim_string(value);
            if trimmed.as_str().is_empty() {
                return Err("port cannot be empty".to_owned());
            }
            profile.port = trimmed;
            Ok(())
        },
        SettingsField::Baud => {
            let trimmed = trim_string(value);
            match parse_decimal(trimmed.as_str(), 0xffff_ffff) {
                None => {
                    let mut msg = String::new();
                    push_str(&mut msg, "invalid baud value: ");
                    push_str(&mut msg, value);
                    Err(msg)
                },
                Some(b) => {
                    if b == 0 {
                        return Err("baud must be greater than 0".to_owned());
                    }
                    profile.baud = b as u32;
                    Ok(())
                },
            }
        },
        _ => Ok(()),
    }
}

/// The popup that Enter on a field opens.
pub fn open_settings_field_popup(field: SettingsField, profile: &SerialProfile) -> (r: SettingsPopup)
    requires
        field == SettingsField::Port ==> utf8_len(profile.port@) <= usize::MAX,
    ensures
        r@ == opened_popup(field, profile_view(*profile)),
{
    match field {
        SettingsField::Port | SettingsField::Baud => {
            let value = settings_field_value(field, profile);
            let cursor = if field == SettingsField::Port {
                byte_len(value.as_str())
            } else {
                proof {
                    lemma_decimal_ascii(profile.baud as nat);
                    lemma_ascii_utf8_len(value@);
                }
                str_chars(value.as_str()).len()
            };
            SettingsPopup::TextInput { field, value, cursor }
        },
        _ => SettingsPopup::ChoiceList { field, selected: current_choice_index(field, profile) },
    }
}


// ---------------------------------------------------------------------
// Keys

/// What a key did: the panel afterwards (`None` once it is closed), the
/// new status line, the profile to save as defaults before anything else
/// takes effect, and the profile to apply, reconnecting with it.
#[derive(Clone, Debug, PartialEq, Eq)]
pub struct SettingsStep {
    pub settings: Option<SettingsState>,
    pub status: Option<String>,
    pub save: Option<SerialProfile>,
    pub apply: Option<SerialProfile>,
}

/// A step as values.
pub struct StepView {
    pub settings: Option<SettingsView>,
    pub status: Option<Seq<char>>,
    pub save: Option<ProfileView>,
    pub apply: Option<ProfileView>,
}

pub open spec fn opt_profile_view(p: Option<SerialProfile>) -> Option<ProfileView> {
    match p {
        Some(p) => Some(profile_view(p)),
        None => None,
    }
}

impl View for SettingsStep {
    type V = StepView;

    open spec fn view(&self) -> StepView {
        StepView {
            settings: match self.settings {
                Some(s) => Some(s@),
                None => None,
            },
            status: match self.status {
                Some(t) => Some(t@),
                None => None,
            },
            save: opt_profile_view(self.save),
            apply: opt_profile_view(self.apply),
        }
    }
}

/// The panel stays open as `s`, and nothing else happens.
pub open spec fn kept(s: SettingsView) -> StepView {
    StepView { settings: Some(s), status: None, save: None, apply: None }
}

/// The panel closes with a status line.
pub open spec fn closed_with(status: Seq<char>) -> StepView {
    StepView { settings: None, status: Some(status), save: None, apply: None }
}

/// The panel closes and the profile is applied.
pub open spec fn applied(p: ProfileView) -> StepView {
    StepView { settings: None, status: Some("settings applied; reconnecting"@), save: None, apply: Some(p) }
}

/// The panel stays open as `s` after a field was changed.
pub open spec fn updated(s: SettingsView, field: SettingsField) -> StepView {
    StepView { settings: Some(s), status: Some("updated "@ + field_label(field)), save: None, apply: None }
}

/// A key on the panel itself: Up and Down move the selection round the
/// rows; Enter opens a field's popup or runs an action; Esc closes the
/// panel, or asks first when the draft has changes.
pub open spec fn panel_step(s: SettingsView, key: TerminalKey) -> StepView {
    match key.code {
        TerminalKeyCode::Up => kept(SettingsView { selected: if s.selected >= 1 { (s.selected - 1) as nat } else { 8 }, ..s }),
        TerminalKeyCode::Down => kept(SettingsView { selected: (s.selected + 1) % 9, ..s }),
        TerminalKeyCode::Enter => match settings_rows()[if s.selected < 8 { s.selected as int } else { 8 }] {
            SettingsRow::Field(f) => kept(SettingsView { popup: Some(opened_popup(f, s.draft)), ..s }),
            SettingsRow::Action(SettingsAction::Apply) => applied(s.draft),
            SettingsRow::Action(SettingsAction::SaveDefaults) => StepView {
                settings: Some(s),
                status: None,
                save: Some(s.draft),
                apply: None,
            },
            SettingsRow::Action(SettingsAction::Discard) => closed_with("settings discarded"@),
        },
        TerminalKeyCode::Esc => if s.draft != s.baseline {
            kept(SettingsView { popup: Some(PopupView::ConfirmExit { selected: 2 }), ..s })
        } else {
            closed_with("settings closed"@)
        },
        _ => kept(s),
    }
}

/// A key in the text popup: Esc closes it, Enter accepts the text (or
/// shows why not), Left and Right move the cursor by a byte, Backspace
/// removes the character before the cursor's byte, and a character is
/// inserted at the cursor.
pub open spec fn text_step(s: SettingsView, field: SettingsField, value: Seq<char>, cursor: nat, key: TerminalKey) -> StepView {
    let with = |v: Seq<char>, c: nat| kept(SettingsView { popup: Some(PopupView::TextInput { field, value: v, cursor: c }), ..s });
    match key.code {
        TerminalKeyCode::Esc => kept(SettingsView { popup: None, ..s }),
        TerminalKeyCode::Enter => match committed(field, value, s.draft) {
            Ok(d) => updated(SettingsView { draft: d, popup: None, ..s }, field),
            Err(e) => kept(SettingsView { popup: Some(PopupView::Message(e)), ..s }),
        },
        TerminalKeyCode::Left => with(value, if cursor >= 1 { (cursor - 1) as nat } else { 0 }),
        TerminalKeyCode::Right => with(value, if cursor < utf8_len(value) { cursor + 1 } else { utf8_len(value) }),
        TerminalKeyCode::Backspace => if cursor > 0 {
            with(value.remove(boundary_index(value, cursor - 1)), (cursor - 1) as nat)
        } else {
            with(value, cursor)
        },
        TerminalKeyCode::Char(ch) => with(value.insert(boundary_index(value, cursor as int), ch), cursor + char_utf8_len(ch)),
        _ => with(value, cursor),
    }
}

/// A key in the list popup: Esc closes it, Up and Down move round the
/// choices, Enter or space picks the choice.
pub open spec fn choice_step(s: SettingsView, field: SettingsField, selected: nat, key: TerminalKey) -> StepView {
    let with = |i: nat| kept(SettingsView { popup: Some(PopupView::ChoiceList { field, selected: i }), ..s });
    match key.code {
        TerminalKeyCode::Esc => kept(SettingsView { popup: None, ..s }),
        TerminalKeyCode::Up => with(if selected >= 1 { (selected - 1) as nat } else if choice_len(field) >= 1 { (choice_len(field) - 1) as nat } else { 0 }),
        TerminalKeyCode::Down => with((selected + 1) % choice_len(field)),
        TerminalKeyCode::Enter => updated(SettingsView { draft: with_choice(field, selected, s.draft), popup: None, ..s }, field),
        TerminalKeyCode::Char(' ') => updated(SettingsView { draft: with_choice(field, selected, s.draft), popup: None, ..s }, field),
        _ => with(selected),
    }
}

/// A key in the popup that asks before leaving with changes: Left and
/// Right move between save, discard and cancel; Enter on save saves and
/// applies the draft, on discard closes the panel, on cancel goes back.
pub open spec fn confirm_step(s: SettingsView, selected: nat, key: TerminalKey) -> StepView {
    let with = |i: nat| kept(SettingsView { popup: Some(PopupView::ConfirmExit { selected: i }), ..s });
    match key.code {
        TerminalKeyCode::Esc => kept(SettingsView { popup: None, ..s }),
        TerminalKeyCode::Left => with(if selected >= 1 { (selected - 1) as nat } else { 0 }),
        TerminalKeyCode::Right => with(if selected + 1 <= 2 { selected + 1 } else { 2 }),
        TerminalKeyCode::Enter => if selected == 0 {
            StepView { save: Some(s.draft), ..applied(s.draft) }
        } else if selected == 1 {
            closed_with("settings discarded"@)
        } else {
            kept(SettingsView { popup: None, ..s })
        },
        _ => with(selected),
    }
}

/// What a key does to the panel.
pub open spec fn settings_step(s: SettingsView, key: TerminalKey) -> StepView {
    match s.popup {
        None => panel_step(s, key),
        Some(PopupView::TextInput { field, value, cursor }) => text_step(s, field, value, cursor, key),
        Some(PopupView::ChoiceList { field, selected }) => choice_step(s, field, selected, key),
        Some(PopupView::ConfirmExit { selected }) => confirm_step(s, selected, key),
        Some(PopupView::Message(m)) => if key.code == TerminalKeyCode::Esc || key.code == TerminalKeyCode::Enter {
            kept(SettingsView { popup: None, ..s })
        } else {
            kept(s)
        },
    }
}

/// The keys that can be handled: the others would overflow, divide by
/// zero, or edit the text at a byte inside a character.
pub open spec fn key_allowed(s: SettingsView, key: TerminalKey) -> bool {
    match s.popup {
        None => match key.code {
            TerminalKeyCode::Down => s.selected < usize::MAX,
            TerminalKeyCode::Enter => s.selected == 0 ==> utf8_len(s.draft.port) <= usize::MAX,
            _ => true,
        },
        Some(PopupView::TextInput { value, cursor, .. }) => match key.code {
            TerminalKeyCode::Right => cursor < usize::MAX && utf8_len(value) <= usize::MAX,
            TerminalKeyCode::Backspace => cursor > 0 ==> (char_boundary(value, cursor - 1) && cursor - 1 < utf8_len(value)),
            TerminalKeyCode::Char(ch) => char_boundary(value, cursor as int) && cursor + char_utf8_len(ch) <= usize::MAX,
            _ => true,
        },
        Some(PopupView::ChoiceList { field, selected }) => key.code == TerminalKeyCode::Down
            ==> (selected < usize::MAX && choice_len(field) > 0),
        Some(PopupView::ConfirmExit { selected }) => key.code == TerminalKeyCode::Right ==> selected < usize::MAX,
        Some(PopupView::Message(_)) => true,
    }
}

fn updated_status(field: SettingsField) -> (r: String)
    ensures
        r@ == "updated "@ + field_label(field),
{
    let mut out = String::new();
    push_str(&mut out, "updated ");
    push_str(&mut out, settings_field_label(field));
    out
}

fn kept_step(settings: SettingsState) -> (r: SettingsStep)
    ensures
        r@ == kept(settings@),
{
    SettingsStep { settings: Some(settings), status: None, save: None, apply: None }
}

fn closed_step(status: &str) -> (r: SettingsStep)
    ensures
        r@ == closed_with(status@),
{
    SettingsStep { settings: None, status: Some(status.to_owned()), save: None, apply: None }
}

/// Handles a key of the text popup.
fn handle_text_key(
    draft: SerialProfile,
    baseline: SerialProfile,
    selected: usize,
    field: SettingsField,
    value: String,
    cursor: usize,
    key: TerminalKey,
) -> (r: SettingsStep)
    requires
        key_allowed(SettingsView {
            draft: profile_view(draft),
            baseline: profile_view(baseline),
            selected: selected as nat,
            popup: Some(PopupView::TextInput { field, value: value@, cursor: cursor as nat }),
        }, key),
    ensures
        r@ == text_step(SettingsView {
            draft: profile_view(draft),
            baseline: profile_view(baseline),
            selected: selected as nat,
            popup: Some(PopupView::TextInput { field, value: value@, cursor: cursor as nat }),
        }, field, value@, cursor as nat, key),
{
    let mut draft = draft;
    match key.code {
        TerminalKeyCode::Esc => kept_step(SettingsState { draft, baseline, selected, popup: None }),
        TerminalKeyCode::Enter => {
            match commit_settings_text(field, value.as_str(), &mut draft) {
                Ok(()) => SettingsStep {
                    settings: Some(SettingsState { draft, baseline, selected, popup: None }),
                    status: Some(updated_status(field)),
                    save: None,
                    apply: None,
                },
                Err(e) => kept_step(SettingsState { draft, baseline, selected, popup: Some(SettingsPopup::Message(e)) }),
            }
        },
        TerminalKeyCode::Left => {
            let c = if cursor >= 1 { cursor - 1 } else { 0 };
            kept_step(SettingsState { draft, baseline, selected, popup: Some(SettingsPopup::TextInput { field, value, cursor: c }) })
        },
        TerminalKeyCode::Right => {
            let len = byte_len(value.as_str());
            let c = if cursor < len { cursor + 1 } else { len };
            kept_step(SettingsState { draft, baseline, selected, popup: Some(SettingsPopup::TextInput { field, value, cursor: c }) })
        },
        TerminalKeyCode::Backspace => {
            if cursor > 0 {
                let mut chars = str_chars(value.as_str());
                match char_at_byte(&chars, cursor - 1) {
                    Some(k) => {
                        proof {
                            if k == chars@.len() {
                                assert(chars@.subrange(0, k as int) =~= chars@);
                            }
                        }
                        chars.remove(k);
                        let edited = string_from_chars(chars.as_slice());
                        kept_step(SettingsState {
                            draft,
                            baseline,
                            selected,
                            popup: Some(SettingsPopup::TextInput { field, value: edited, cursor: cursor - 1 }),
                        })
                    },
                    None => kept_step(SettingsState { draft, baseline, selected, popup: Some(SettingsPopup::TextInput { field, value, cursor }) }),
                }
            } else {
                kept_step(SettingsState { draft, baseline, selected, popup: Some(SettingsPopup::TextInput { field, value, cursor }) })
            }
        },
        TerminalKeyCode::Char(ch) => {
            let mut chars = str_chars(value.as_str());
            match char_at_byte(&chars, cursor) {
                Some(k) => {
                    chars.insert(k, ch);
                    let edited = string_from_chars(chars.as_slice());
                    let c = cursor + char_len_utf8(ch);
                    kept_step(SettingsState {
                        draft,
                        baseline,
                        selected,
                        popup: Some(SettingsPopup::TextInput { field, value: edited, cursor: c }),
                    })
                },
                None => kept_step(SettingsState { draft, baseline, selected, popup: Some(SettingsPopup::TextInput { field, value, cursor }) }),
            }
        },
        _ => kept_step(SettingsState { draft, baseline, selected, popup: Some(SettingsPopup::TextInput { field, value, cursor }) }),
    }
}

/// Handles a key of a popup; `settings` is the panel without it.
pub fn handle_settings_popup_key(settings: SettingsState, popup: SettingsPopup, key: TerminalKey) -> (r: SettingsStep)
    requires
        key_allowed(SettingsView { popup: Some(popup@), ..settings@ }, key),
    ensures
        r@ == settings_step(SettingsView { popup: Some(popup@), ..settings@ }, key),
{
    let SettingsState { mut draft, baseline, selected, popup: _ } = settings;
    match popup {
        SettingsPopup::TextInput { field, value, cursor } => handle_text_key(draft, baseline, selected, field, value, cursor, key),
        SettingsPopup::ChoiceList { field, selected: choice } => match key.code {
            TerminalKeyCode::Esc => kept_step(SettingsState { draft, baseline, selected, popup: None }),
            TerminalKeyCode::Up => {
                let len = settings_choice_len(field);
                let i = if choice >= 1 { choice - 1 } else if len >= 1 { len - 1 } else { 0 };
                kept_step(SettingsState { draft, baseline, selected, popup: Some(SettingsPopup::ChoiceList { field, selected: i }) })
            },
            TerminalKeyCode::Down => {
                let i = (choice + 1) % settings_choice_len(field);
                kept_step(SettingsState { draft, baseline, selected, popup: Some(SettingsPopup::ChoiceList { field, selected: i }) })
            },
            TerminalKeyCode::Enter | TerminalKeyCode::Char(' ') => {
                apply_settings_choice(field, choice, &mut draft);
                SettingsStep {
                    settings: Some(SettingsState { draft, baseline, selected, popup: None }),
                    status: Some(updated_status(field)),
                    save: None,
                    apply: None,
                }
            },
            _ => kept_step(SettingsState { draft, baseline, selected, popup: Some(SettingsPopup::ChoiceList { field, selected: choice }) }),
        },
        SettingsPopup::ConfirmExit { selected: choice } => match key.code {
            TerminalKeyCode::Esc => kept_step(SettingsState { draft, baseline, selected, popup: None }),
            TerminalKeyCode::Left => {
                let i = if choice >= 1 { choice - 1 } else { 0 };
                kept_step(SettingsState { draft, baseline, selected, popup: Some(SettingsPopup::ConfirmExit { selected: i }) })
            },
            TerminalKeyCode::Right => {
                let i = if choice + 1 <= 2 { choice + 1 } else { 2 };
                kept_step(SettingsState { draft, baseline, selected, popup: Some(SettingsPopup::ConfirmExit { selected: i }) })
            },
            TerminalKeyCode::Enter => {
                if choice == 0 {
                    let saved = copy_profile(&draft);
                    SettingsStep {
                        settings: None,
                        status: Some("settings applied; reconnecting".to_owned()),
                        save: Some(saved),
                        apply: Some(draft),
                    }
                } else if choice == 1 {
                    closed_step("settings discarded")
                } else {
                    kept_step(SettingsState { draft, baseline, selected, popup: None })
                }
            },
            _ => kept_step(SettingsState { draft, baseline, selected, popup: Some(SettingsPopup::ConfirmExit { selected: choice }) }),
        },
        SettingsPopup::Message(m) => {
            if key.code == TerminalKeyCode::Esc || key.code == TerminalKeyCode::Enter {
                kept_step(SettingsState { draft, baseline, selected, popup: None })
            } else {
                kept_step(SettingsState { draft, baseline, selected, popup: Some(SettingsPopup::Message(m)) })
            }
        },
    }
}

/// Handles a key while the panel is open.
pub fn handle_settings_key(settings: SettingsState, key: TerminalKey) -> (r: SettingsStep)
    requires
        key_allowed(settings@, key),
    ensures
        r@ == settings_step(settings@, key),
{
    let SettingsState { draft, baseline, selected, popup } = settings;
    match popup {
        Some(p) => handle_settings_popup_key(SettingsState { draft, baseline, selected, popup: None }, p, key),
        None => match key.code {
            TerminalKeyCode::Up => {
                let i = if selected >= 1 { selected - 1 } else { 8 };
                kept_step(SettingsState { draft, baseline, selected: i, popup: None })
            },
            TerminalKeyCode::Down => kept_step(SettingsState { draft, baseline, selected: (selected + 1) % 9, popup: None }),
            TerminalKeyCode::Enter => {
                let state = SettingsState { draft, baseline, selected, popup: None };
                match state.selected_row() {
                    SettingsRow::Field(f) => {
                        let p = open_settings_field_popup(f, &state.draft);
                        kept_step(SettingsState { popup: Some(p), ..state })
                    },
                    SettingsRow::Action(SettingsAction::Apply) => SettingsStep {
                        settings: None,
                        status: Some("settings applied; reconnecting".to_owned()),
                        save: None,
                        apply: Some(state.draft),
                    },
                    SettingsRow::Action(SettingsAction::SaveDefaults) => {
                        let saved = copy_profile(&state.draft);
                        SettingsStep { settings: Some(state), status: None, save: Some(saved), apply: None }
                    },
                    SettingsRow::Action(SettingsAction::Discard) => closed_step("settings discarded"),
                }
            },
            TerminalKeyCode::Esc => {
                let state = SettingsState { draft, baseline, selected, popup: None };
                if state.is_dirty() {
                    kept_step(SettingsState { popup: Some(SettingsPopup::ConfirmExit { selected: 2 }), ..state })
                } else {
                    closed_step("settings closed")
                }
            },
            _ => kept_step(SettingsState { draft, baseline, selected, popup: None }),
        },
    }
}

/// The step after its profile was saved to `config_path`: an open panel
/// takes the draft as its baseline and says so; the status names the
/// file.
pub fn settings_saved(step: SettingsStep, config_path: &str) -> (r: SettingsStep)
    ensures
        match step@.settings {
            Some(s) => r@ == (StepView {
                settings: Some(SettingsView {
                    baseline: s.draft,
                    popup: Some(PopupView::Message("settings saved"@)),
                    ..s
                }),
                status: Some("settings saved to "@ + config_path@),
                ..step@
            }),
            None => r@ == step@,
        },
{
    let SettingsStep { settings, status, save, apply } = step;
    match settings {
        Some(s) => {
            let SettingsState { draft, baseline: _, selected, popup: _ } = s;
            let baseline = copy_profile(&draft);
            let mut msg = String::new();
            push_str(&mut msg, "settings saved to ");
            push_str(&mut msg, config_path);
            SettingsStep {
                settings: Some(SettingsState {
                    draft,
                    baseline,
                    selected,
                    popup: Some(SettingsPopup::Message("settings saved".to_owned())),
                }),
                status: Some(msg),
                save,
                apply,
            }
        },
        None => SettingsStep { settings: None, status, save, apply },
    }
}

/// Whether the text's length in bytes fits in `usize`.
fn fits_usize(s: &str) -> (r: bool)
    ensures
        r == (utf8_len(s@) <= usize::MAX),
{
    let chars = str_chars(s);
    let mut total: u128 = 0;
    let mut i: usize = 0;
    assert(chars@.subrange(0, 0) =~= Seq::<char>::empty());
    while i < chars.len()
        invariant
            i <= chars@.len(),
            chars@ == s@,
            total as nat == utf8_len(chars@.subrange(0, i as int)),
            total <= 4 * i,
        decreases chars@.len() - i,
    {
        proof {
            lemma_prefix_len_step(chars@, i as int);
        }
        total = total + char_len_utf8(chars[i]) as u128;
        i = i + 1;
    }
    assert(chars@.subrange(0, i as int) =~= chars@);
    total <= usize::MAX as u128
}

/// Whether a key can be handled (see [`key_allowed`]); the panel would
/// fail on the others.
pub fn settings_key_allowed(settings: &SettingsState, key: TerminalKey) -> (r: bool)
    ensures
        r == key_allowed(settings@, key),
{
    match &settings.popup {
        None => match key.code {
            TerminalKeyCode::Down => settings.selected < usize::MAX,
            TerminalKeyCode::Enter => settings.selected != 0 || fits_usize(settings.draft.port.as_str()),
            _ => true,
        },
        Some(SettingsPopup::TextInput { value, cursor, .. }) => match key.code {
            TerminalKeyCode::Right => *cursor < usize::MAX && fits_usize(value.as_str()),
            TerminalKeyCode::Backspace => {
                if *cursor == 0 {
                    true
                } else {
                    let chars = str_chars(value.as_str());
                    match char_at_byte(&chars, *cursor - 1) {
                        Some(k) => {
                            proof {
                                if k < chars@.len() {
                                    lemma_prefix_len_strict(chars@, k as int, chars@.len() as int);
                                }
                                assert(chars@.subrange(0, chars@.len() as int) =~= chars@);
                            }
                            k < chars.len()
                        },
                        None => false,
                    }
                }
            },
            TerminalKeyCode::Char(ch) => {
                let chars = str_chars(value.as_str());
                match char_at_byte(&chars, *cursor) {
                    Some(_) => *cursor <= usize::MAX - char_len_utf8(ch),
                    None => false,
                }
            },
            _ => true,
        },
        Some(SettingsPopup::ChoiceList { field, selected }) => key.code != TerminalKeyCode::Down
            || (*selected < usize::MAX && settings_choice_len(*field) > 0),
        Some(SettingsPopup::ConfirmExit { selected }) => key.code != TerminalKeyCode::Right || *selected < usize::MAX,
        Some(SettingsPopup::Message(_)) => true,
    }
}

// ---------------------------------------------------------------------
// Laws

/// Moving the selection up and then down, or down and then up, comes back
/// to the same row.
pub proof fn lemma_up_down_round_trip(s: SettingsView, up: TerminalKey, down: TerminalKey)
    requires
        s.popup is None,
        s.selected < 9,
        up.code == TerminalKeyCode::Up,
        down.code == TerminalKeyCode::Down,
    ensures
        settings_step(settings_step(s, up).settings.unwrap(), down) == kept(s),
        settings_step(settings_step(s, down).settings.unwrap(), up) == kept(s),
{
}

/// In the text popup, typing an ASCII character where a character starts
/// and then Backspace leaves the text and the cursor as they were.
pub proof fn lemma_type_then_backspace(s: SettingsView, ch: char, typed: TerminalKey, back: TerminalKey)
    requires
        s.popup matches Some(PopupView::TextInput { value, cursor, .. }) && char_boundary(value, cursor as int),
        (ch as u32) < 0x80,
        typed.code == TerminalKeyCode::Char(ch),
        back.code == TerminalKeyCode::Backspace,
    ensures
        key_allowed(settings_step(s, typed).settings.unwrap(), back),
        settings_step(settings_step(s, typed).settings.unwrap(), back) == kept(s),
{
    let p = s.popup.unwrap();
    let field = p->TextInput_field;
    let value = p->TextInput_value;
    let cursor = p->TextInput_cursor;
    let k = boundary_index(value, cursor as int);
    let typed_value = value.insert(k, ch);
    assert(0 <= k <= value.len() && utf8_len(value.subrange(0, k)) == cursor);
    assert(typed_value.subrange(0, k) =~= value.subrange(0, k));
    lemma_prefix_len_step(typed_value, k);
    assert(utf8_len(typed_value.subrange(0, k + 1)) == cursor + 1);
    lemma_boundary_unique(typed_value, k, cursor as int);
    if k + 1 < typed_value.len() {
        lemma_prefix_len_strict(typed_value, k + 1, typed_value.len() as int);
    }
    assert(typed_value.subrange(0, typed_value.len() as int) =~= typed_value);
    assert(typed_value.remove(k) =~= value);
    let s1 = settings_step(s, typed).settings.unwrap();
    assert(s1 == SettingsView {
        popup: Some(PopupView::TextInput { field, value: typed_value, cursor: cursor + 1 }),
        ..s
    });
    assert(settings_step(s1, back).settings.unwrap() =~= s);
}

} // verus!
