//! The mutually exclusive interface modes, the form-field cursor, and the
//! pending action handed to the interface loop.

use vstd::prelude::*;

verus! {

/// The current interface mode. The index carried by `EditHost` and
/// `ConfirmDelete` refers to a position in the host list itself, not in the
/// filtered view.
#[derive(Debug, Clone, Copy, PartialEq, Eq, Structural)]
pub enum Mode {
    Normal,
    Search,
    AddHost,
    EditHost(usize),
    ConfirmDelete(usize),
    SelectTheme,
    Help,
}

/// The five editable fields of the host form, in cursor order.
#[derive(Debug, Clone, Copy, PartialEq, Eq, Structural)]
pub enum FormField {
    Alias,
    HostName,
    Port,
    User,
    IdentityFile,
}

impl FormField {
    /// The field after `self` in the circular cursor order.
    pub open spec fn next_spec(self) -> FormField {
        match self {
            FormField::Alias => FormField::HostName,
            FormField::HostName => FormField::Port,
            FormField::Port => FormField::User,
            FormField::User => FormField::IdentityFile,
            FormField::IdentityFile => FormField::Alias,
        }
    }

    /// The field before `self` in the circular cursor order.
    pub open spec fn previous_spec(self) -> FormField {
        match self {
            FormField::Alias => FormField::IdentityFile,
            FormField::HostName => FormField::Alias,
            FormField::Port => FormField::HostName,
            FormField::User => FormField::Port,
            FormField::IdentityFile => FormField::User,
        }
    }

    /// Which characters the field accepts: the port field takes decimal
    /// digits only, every other field takes anything.
    pub open spec fn accepts_char_spec(self, c: char) -> bool {
        match self {
            FormField::Port => crate::text::is_digit_char(c),
            _ => true,
        }
    }

    pub open spec fn label_spec(self) -> Seq<char> {
        match self {
            FormField::Alias => "Host Alias"@,
            FormField::HostName => "HostName"@,
            FormField::Port => "Port"@,
            FormField::User => "User"@,
            FormField::IdentityFile => "IdentityFile"@,
        }
    }

    pub open spec fn placeholder_spec(self) -> Seq<char> {
        match self {
            FormField::Alias => "name used with ssh <alias>"@,
            FormField::HostName => "IP or domain"@,
            FormField::Port => "default 22"@,
            FormField::User => "login username"@,
            FormField::IdentityFile => "path to key (optional)"@,
        }
    }

    /// All fields, in cursor order.
    pub fn all() -> (r: Vec<FormField>)
        ensures
            r@ == seq![
                FormField::Alias,
                FormField::HostName,
                FormField::Port,
                FormField::User,
                FormField::IdentityFile,
            ],
    {
        let mut r: Vec<FormField> = Vec::new();
        r.push(FormField::Alias);
        r.push(FormField::HostName);
        r.push(FormField::Port);
        r.push(FormField::User);
        r.push(FormField::IdentityFile);
        proof {
            assert(r@ =~= seq![
                FormField::Alias,
                FormField::HostName,
                FormField::Port,
                FormField::User,
                FormField::IdentityFile,
            ]);
        }
        r
    }

    pub fn next(&self) -> (r: FormField)
        ensures
            r == self.next_spec(),
    {
        match self {
            FormField::Alias => FormField::HostName,
            FormField::HostName => FormField::Port,
            FormField::Port => FormField::User,
            FormField::User => FormField::IdentityFile,
            FormField::IdentityFile => FormField::Alias,
        }
    }

    pub fn previous(&self) -> (r: FormField)
        ensures
            r == self.previous_spec(),
    {
        match self {
            FormField::Alias => FormField::IdentityFile,
            FormField::HostName => FormField::Alias,
            FormField::Port => FormField::HostName,
            FormField::User => FormField::Port,
            FormField::IdentityFile => FormField::User,
        }
    }

    pub fn label(&self) -> (r: &'static str)
        ensures
            r@ == self.label_spec(),
    {
        match self {
            FormField::Alias => "Host Alias",
            FormField::HostName => "HostName",
            FormField::Port => "Port",
            FormField::User => "User",
            FormField::IdentityFile => "IdentityFile",
        }
    }

    pub fn placeholder(&self) -> (r: &'static str)
        ensures
            r@ == self.placeholder_spec(),
    {
        match self {
            FormField::Alias => "name used with ssh <alias>",
            FormField::HostName => "IP or domain",
            FormField::Port => "default 22",
            FormField::User => "login username",
            FormField::IdentityFile => "path to key (optional)",
        }
    }

    pub fn accepts_char(&self, c: char) -> (r: bool)
        ensures
            r == self.accepts_char_spec(c),
    {
        match self {
            FormField::Port => crate::text::char_is_digit(c),
            _ => true,
        }
    }
}

/// What the interface loop is asked to do after the current cycle: keep
/// going, quit, or suspend and launch a session with the given arguments.
#[derive(Debug, Clone)]
pub enum Action {
    Continue,
    Quit,
    LaunchSsh(Vec<String>),
}

} // verus!
