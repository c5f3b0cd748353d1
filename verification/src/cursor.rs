//! Cursor icons: [`Icon`] wraps cursor-icon's `CursorIcon`, and [`OptionIcon`] an optional one, so that they can
//! be converted from and into other representations.
use vstd::prelude::*;

verus! {

/// cursor-icon's `CursorIcon`, carried through opaquely.
#[verifier::external_type_specification]
#[verifier::external_body]
pub struct ExCursorIcon(cursor_icon::CursorIcon);

/// Calls `CursorIcon::default`: the platform's default cursor icon. This contract states nothing of it, since the
/// icon is opaque here.
#[verifier::external_body]
fn default_cursor_icon() -> cursor_icon::CursorIcon {
    cursor_icon::CursorIcon::default()
}

/// A cursor icon.
#[derive(Copy, Clone, PartialEq, Eq, Hash, Debug)]
pub struct Icon(pub cursor_icon::CursorIcon);

impl Default for Icon {
    /// The default cursor icon.
    fn default() -> (r: Self) {
        Icon(default_cursor_icon())
    }
}

impl Icon {
    /// The icon `cursor_icon`.
    pub fn new(cursor_icon: cursor_icon::CursorIcon) -> (r: Self)
        ensures
            r.0 == cursor_icon,
    {
        Self(cursor_icon)
    }

    /// The wrapped cursor icon.
    pub fn into_cursor_icon(self) -> (r: cursor_icon::CursorIcon)
        ensures
            r == self.0,
    {
        self.0
    }
}

impl std::ops::Deref for Icon {
    type Target = cursor_icon::CursorIcon;

    fn deref(&self) -> (r: &cursor_icon::CursorIcon)
        ensures
            *r == self.0,
    {
        &self.0
    }
}

impl From<cursor_icon::CursorIcon> for Icon {
    fn from(cursor_icon: cursor_icon::CursorIcon) -> (r: Self) {
        Self(cursor_icon)
    }
}

impl vstd::std_specs::convert::FromSpecImpl<cursor_icon::CursorIcon> for Icon {
    open spec fn obeys_from_spec() -> bool {
        true
    }

    open spec fn from_spec(v: cursor_icon::CursorIcon) -> Self {
        Icon(v)
    }
}

impl From<Icon> for cursor_icon::CursorIcon {
    fn from(icon: Icon) -> (r: Self) {
        icon.0
    }
}

impl vstd::std_specs::convert::FromSpecImpl<Icon> for cursor_icon::CursorIcon {
    open spec fn obeys_from_spec() -> bool {
        true
    }

    open spec fn from_spec(v: Icon) -> Self {
        v.0
    }
}

/// An optional cursor icon: `None` hides the cursor.
#[derive(Copy, Clone, PartialEq, Eq, Hash, Debug)]
pub struct OptionIcon(pub Option<cursor_icon::CursorIcon>);

impl Default for OptionIcon {
    /// No icon.
    fn default() -> (r: Self)
        ensures
            r.0 == None::<cursor_icon::CursorIcon>,
    {
        OptionIcon(None)
    }
}

impl OptionIcon {
    /// The optional icon `option`.
    pub fn new(option: Option<cursor_icon::CursorIcon>) -> (r: Self)
        ensures
            r.0 == option,
    {
        Self(option)
    }

    /// The icon `cursor_icon`.
    pub fn from_cursor_icon(cursor_icon: cursor_icon::CursorIcon) -> (r: Self)
        ensures
            r.0 == Some(cursor_icon),
    {
        Self(Some(cursor_icon))
    }

    /// No icon.
    pub fn from_none() -> (r: Self)
        ensures
            r.0 == None::<cursor_icon::CursorIcon>,
    {
        Self(None)
    }

    /// The wrapped optional icon.
    pub fn into_option(self) -> (r: Option<cursor_icon::CursorIcon>)
        ensures
            r == self.0,
    {
        self.0
    }

    /// A reference to the icon, if there is one.
    pub fn as_ref(&self) -> (r: Option<&cursor_icon::CursorIcon>)
        ensures
            r is Some <==> self.0 is Some,
            r matches Some(i) ==> *i == self.0->Some_0,
    {
        match &self.0 {
            Some(i) => Some(i),
            None => None,
        }
    }
}

impl From<Option<cursor_icon::CursorIcon>> for OptionIcon {
    fn from(option: Option<cursor_icon::CursorIcon>) -> (r: Self) {
        Self(option)
    }
}

impl vstd::std_specs::convert::FromSpecImpl<Option<cursor_icon::CursorIcon>> for OptionIcon {
    open spec fn obeys_from_spec() -> bool {
        true
    }

    open spec fn from_spec(v: Option<cursor_icon::CursorIcon>) -> Self {
        OptionIcon(v)
    }
}

impl From<cursor_icon::CursorIcon> for OptionIcon {
    fn from(cursor_icon: cursor_icon::CursorIcon) -> (r: Self) {
        Self(Some(cursor_icon))
    }
}

impl vstd::std_specs::convert::FromSpecImpl<cursor_icon::CursorIcon> for OptionIcon {
    open spec fn obeys_from_spec() -> bool {
        true
    }

    open spec fn from_spec(v: cursor_icon::CursorIcon) -> Self {
        OptionIcon(Some(v))
    }
}

impl From<Option<Icon>> for OptionIcon {
    fn from(option: Option<Icon>) -> (r: Self) {
        match option {
            Some(icon) => Self(Some(icon.0)),
            None => Self(None),
        }
    }
}

impl vstd::std_specs::convert::FromSpecImpl<Option<Icon>> for OptionIcon {
    open spec fn obeys_from_spec() -> bool {
        true
    }

    open spec fn from_spec(v: Option<Icon>) -> Self {
        match v {
            Some(icon) => OptionIcon(Some(icon.0)),
            None => OptionIcon(None),
        }
    }
}

impl From<Icon> for OptionIcon {
    fn from(icon: Icon) -> (r: Self) {
        Self(Some(icon.0))
    }
}

impl vstd::std_specs::convert::FromSpecImpl<Icon> for OptionIcon {
    open spec fn obeys_from_spec() -> bool {
        true
    }

    open spec fn from_spec(v: Icon) -> Self {
        OptionIcon(Some(v.0))
    }
}

impl From<OptionIcon> for Option<cursor_icon::CursorIcon> {
    fn from(option_icon: OptionIcon) -> (r: Self) {
        option_icon.0
    }
}

impl vstd::std_specs::convert::FromSpecImpl<OptionIcon> for Option<cursor_icon::CursorIcon> {
    open spec fn obeys_from_spec() -> bool {
        true
    }

    open spec fn from_spec(v: OptionIcon) -> Self {
        v.0
    }
}

impl From<OptionIcon> for Option<Icon> {
    fn from(option_icon: OptionIcon) -> (r: Self) {
        match option_icon.0 {
            Some(cursor_icon) => Some(Icon(cursor_icon)),
            None => None,
        }
    }
}

impl vstd::std_specs::convert::FromSpecImpl<OptionIcon> for Option<Icon> {
    open spec fn obeys_from_spec() -> bool {
        true
    }

    open spec fn from_spec(v: OptionIcon) -> Self {
        match v.0 {
            Some(cursor_icon) => Some(Icon(cursor_icon)),
            None => None,
        }
    }
}

} // verus!
