//! Development panels: a gallery of sample widgets.
use vstd::prelude::*;
use vstd::string::StringExecFns;

verus! {

/// The name of a panel within the backend that offers it.
#[derive(Debug)]
pub struct BackendPanelId(pub String);

/// A panel a backend offers in the menu.
#[derive(Debug)]
pub struct BackendPanelInfo {
    pub id: BackendPanelId,
    pub title: String,
    pub description: String,
}

/// The backend that offers the development panels.
#[derive(Debug, Clone, Copy)]
pub struct DebugBackend;

/// A panel showing sample widgets, for trying the look of the interface.
#[derive(Debug, Clone, Copy)]
pub struct WidgetGalleryPanel;

pub open spec fn gallery_id() -> Seq<char> {
    "widget_gallery"@
}

impl DebugBackend {
    /// The backend's name in the menu.
    pub fn name(&self) -> (r: &'static str)
        ensures
            r@ == "Debug"@,
    {
        "Debug"
    }

    /// The one panel on offer: the widget gallery.
    pub fn panels(&self) -> (r: Vec<BackendPanelInfo>)
        ensures
            r@.len() == 1,
            r@[0].id.0@ == gallery_id(),
            r@[0].title@ == "Widget Gallery"@,
            r@[0].description@ == "A panel showcasing various widgets for testing and debugging."@,
    {
        let info = BackendPanelInfo {
            id: BackendPanelId(String::from_str("widget_gallery")),
            title: String::from_str("Widget Gallery"),
            description: String::from_str("A panel showcasing various widgets for testing and debugging."),
        };
        let mut r: Vec<BackendPanelInfo> = Vec::new();
        r.push(info);
        r
    }

    /// Opens the panel named `panel_id`; only the gallery exists.
    pub fn new_panel(&self, panel_id: &BackendPanelId) -> (r: WidgetGalleryPanel)
        requires
            panel_id.0@ == gallery_id(),
    {
        WidgetGalleryPanel
    }
}

impl WidgetGalleryPanel {
    /// The tab title.
    pub fn title(&self) -> (r: &'static str)
        ensures
            r@ == "Widget Gallery"@,
    {
        "Widget Gallery"
    }

    /// The line the panel shows above a placeholder sentence.
    pub fn text(&self) -> (r: &'static str)
        ensures
            r@ == "This is a widget gallery panel. You can add various widgets here for testing and debugging purposes."@,
    {
        "This is a widget gallery panel. You can add various widgets here for testing and debugging purposes."
    }
}

} // verus!
