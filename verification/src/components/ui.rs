use vstd::prelude::*;

verus! {

/// The kind of widget that an interface component shows.
#[derive(Clone, Copy, Debug, PartialEq, Eq, Structural)]
pub enum WidgetType {
    NoWidget,
    TestWidget,
}

/// An interface component: a widget that can be switched on and off.
#[derive(Clone, Copy, Debug)]
pub struct UIComponent {
    enabled: bool,
    pub widget_type: WidgetType,
}

impl UIComponent {
    pub closed spec fn spec_enabled(&self) -> bool {
        self.enabled
    }

    pub closed spec fn spec_widget_type(&self) -> WidgetType {
        self.widget_type
    }

    /// A disabled component that shows no widget.
    pub fn new() -> (c: Self)
        ensures
            !c.spec_enabled(),
            c.spec_widget_type() == WidgetType::NoWidget,
    {
        Self::default()
    }

    pub fn set_enabled(&mut self, enabled: bool)
        ensures
            final(self).spec_enabled() == enabled,
            final(self).spec_widget_type() == old(self).spec_widget_type(),
    {
        self.enabled = enabled;
    }

    pub fn get_enabled(&self) -> (r: bool)
        ensures
            r == self.spec_enabled(),
    {
        self.enabled
    }
}

impl Default for UIComponent {
    fn default() -> (c: Self)
        ensures
            !c.spec_enabled(),
            c.spec_widget_type() == WidgetType::NoWidget,
    {
        Self { enabled: false, widget_type: WidgetType::NoWidget }
    }
}

} // verus!
