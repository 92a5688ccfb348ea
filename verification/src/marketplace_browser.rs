//! The page on which extensions are installed.
use vstd::prelude::*;
use vstd::string::*;

use crate::marketplace::{MarketplaceEntry, MarketplaceRegistry};
use crate::text::push_decimal;
use crate::text_map::TextMap;

verus! {

/// An extension of the registry and whether it is installed.
#[derive(Debug)]
pub struct MarketplaceExtension {
    /// The extension.
    pub entry: MarketplaceEntry,
    /// Whether it is installed.
    pub installed: bool,
    /// The installed version.
    pub installed_version: String,
}

/// What a row's button does.
#[derive(Debug)]
pub enum RowAction {
    /// Installs a version of an extension.
    Install {
        /// Identifies the extension.
        id: String,
        /// The version as text.
        version: String,
    },
    /// Takes an extension away.
    Uninstall {
        /// Identifies the extension.
        id: String,
    },
}

/// What is shown of an extension.
#[derive(Debug)]
pub struct BrowserRow {
    /// The headline.
    pub headline: String,
    /// The identifier, the version and the author.
    pub details: String,
    /// What the extension does.
    pub description: String,
    /// Identifies the button.
    pub button_id: String,
    /// What the button says.
    pub button_label: &'static str,
    /// What the button does.
    pub action: RowAction,
}

/// What is shown below the headline.
#[derive(Debug)]
pub enum BrowserBody {
    /// A message.
    Message(&'static str),
    /// The extensions.
    Rows(Vec<BrowserRow>),
}

/// What the page shows.
#[derive(Debug)]
pub struct BrowserPage {
    /// The headline.
    pub headline: &'static str,
    /// What is shown below it.
    pub body: BrowserBody,
    /// The last line.
    pub footer: String,
}

/// What is shown of an extension.
pub open spec fn row_shows(row: BrowserRow, extension: MarketplaceExtension) -> bool {
    let entry = extension.entry;
    let version = crate::marketplace::version_text(entry.version);
    &&& row.headline@ == entry.name@
    &&& row.details@ == entry.id@ + " · v"@ + version + " · by "@ + entry.author@
    &&& row.description@ == entry.description@
    &&& if extension.installed {
        &&& row.button_id@ == "uninstall-"@ + entry.id@
        &&& row.button_label@ == "Uninstall"@
        &&& row.action matches RowAction::Uninstall { id } && id@ == entry.id@
    } else {
        &&& row.button_id@ == "install-"@ + entry.id@
        &&& row.button_label@ == "Install"@
        &&& row.action matches RowAction::Install { id, version: chosen } && id@ == entry.id@
            && chosen@ == version
    }
}

/// The last line of the page.
pub open spec fn footer_text(count: nat) -> Seq<char> {
    crate::text::decimal_text(count) + " extension"@ + (if count != 1 {
        "s"@
    } else {
        ""@
    }) + " available"@
}

/// What the page keeps of an extension of the registry, given the installed versions.
pub open spec fn listed(
    extension: MarketplaceExtension,
    entry: MarketplaceEntry,
    installed: Map<Seq<char>, String>,
) -> bool {
    &&& crate::marketplace::same_entry(extension.entry, entry)
    &&& extension.installed == installed.contains_key(entry.id@)
    &&& extension.installed_version@ == (if installed.contains_key(entry.id@) {
        installed[entry.id@]@
    } else {
        "not installed"@
    })
}

/// The state of the page.
#[derive(Debug)]
pub struct MarketplaceBrowser {
    /// The extensions.
    pub entries: Vec<MarketplaceExtension>,
    /// The places of the extensions that are shown.
    pub filtered_indices: Vec<usize>,
    /// Whether the registry is being asked.
    pub is_fetching: bool,
}

impl MarketplaceBrowser {
    /// The places that are shown are places of extensions.
    pub open spec fn wf(&self) -> bool {
        forall|i: int|
            0 <= i < self.filtered_indices@.len() ==> (#[trigger] self.filtered_indices@[i])
                < self.entries@.len()
    }

    /// A page that shows nothing yet and asks the registry.
    pub fn new() -> (browser: MarketplaceBrowser)
        ensures
            browser.wf(),
            browser.entries@.len() == 0,
            browser.filtered_indices@.len() == 0,
            browser.is_fetching,
    {
        let mut browser = MarketplaceBrowser {
            entries: Vec::new(),
            filtered_indices: Vec::new(),
            is_fetching: false,
        };
        browser.begin_refresh();
        browser
    }

    /// The registry is asked again.
    pub fn begin_refresh(&mut self)
        ensures
            final(self).is_fetching,
            final(self).entries == old(self).entries,
            final(self).filtered_indices == old(self).filtered_indices,
    {
        self.is_fetching = true;
    }

    /// The registry answered, or could not be reached; `installed` holds the versions of the
    /// installed extensions.
    pub fn finish_refresh(
        &mut self,
        registry: Option<&MarketplaceRegistry>,
        installed: &TextMap<String>,
    )
        ensures
            final(self).wf(),
            !final(self).is_fetching,
            match registry {
                Some(registry) => {
                    &&& final(self).entries@.len() == registry.entries@.len()
                    &&& forall|i: int|
                        0 <= i < registry.entries@.len() ==> listed(
                            #[trigger] final(self).entries@[i],
                            registry.entries@[i],
                            installed@,
                        )
                },
                None => final(self).entries@.len() == 0,
            },
            final(self).filtered_indices@ == Seq::new(
                final(self).entries@.len(),
                |i: int| i as usize,
            ),
    {
        let mut entries: Vec<MarketplaceExtension> = Vec::new();
        let mut filtered_indices: Vec<usize> = Vec::new();
        match registry {
            Some(registry) => {
                let mut i: usize = 0;
                while i < registry.entries.len()
                    invariant
                        i <= registry.entries@.len(),
                        entries@.len() == i,
                        filtered_indices@ == Seq::new(i as nat, |k: int| k as usize),
                        forall|k: int|
                            0 <= k < i ==> listed(
                                #[trigger] entries@[k],
                                registry.entries@[k],
                                installed@,
                            ),
                    decreases registry.entries@.len() - i,
                {
                    let entry = &registry.entries[i];
                    let (known, installed_version) = match installed.get(entry.id.as_str()) {
                        Some(version) => (true, version.clone()),
                        None => (false, "not installed".to_owned()),
                    };
                    entries.push(
                        MarketplaceExtension {
                            entry: entry.clone(),
                            installed: known,
                            installed_version,
                        },
                    );
                    filtered_indices.push(i);
                    i += 1;
                    assert(filtered_indices@ =~= Seq::new(i as nat, |k: int| k as usize));
                }
            },
            None => {},
        }
        assert(filtered_indices@ =~= Seq::new(entries@.len(), |k: int| k as usize));
        self.entries = entries;
        self.filtered_indices = filtered_indices;
        self.is_fetching = false;
    }

    /// What is shown of an extension.
    fn row(extension: &MarketplaceExtension) -> (row: BrowserRow)
        ensures
            row_shows(row, *extension),
    {
        let entry = &extension.entry;
        let version = entry.version.to_text();
        let mut details = entry.id.clone();
        details.append(" · v");
        details.append(version.as_str());
        details.append(" · by ");
        details.append(entry.author.as_str());
        let mut button_id = String::new();
        let (button_label, action) = if extension.installed {
            button_id.append("uninstall-");
            ("Uninstall", RowAction::Uninstall { id: entry.id.clone() })
        } else {
            button_id.append("install-");
            ("Install", RowAction::Install { id: entry.id.clone(), version })
        };
        button_id.append(entry.id.as_str());
        let row = BrowserRow {
            headline: entry.name.clone(),
            details,
            description: entry.description.clone(),
            button_id,
            button_label,
            action,
        };
        assert(row.button_id@ =~= (if extension.installed {
            "uninstall-"@
        } else {
            "install-"@
        }) + entry.id@);
        row
    }

    /// What the page shows: that it is loading, that nothing could be loaded, or the
    /// extensions; and how many there are.
    pub fn render(&self) -> (page: BrowserPage)
        requires
            self.wf(),
        ensures
            page.headline@ == "Extension Marketplace"@,
            match page.body {
                BrowserBody::Message(text) => if self.is_fetching {
                    text@ == "Loading marketplace extensions..."@
                } else {
                    self.entries@.len() == 0 && text@ == "Failed to load marketplace extensions"@
                },
                BrowserBody::Rows(rows) => {
                    &&& !self.is_fetching
                    &&& self.entries@.len() > 0
                    &&& rows@.len() == self.filtered_indices@.len()
                    &&& forall|i: int|
                        0 <= i < rows@.len() ==> row_shows(
                            #[trigger] rows@[i],
                            self.entries@[self.filtered_indices@[i] as int],
                        )
                },
            },
            page.footer@ == footer_text(self.filtered_indices@.len()),
    {
        let body = if self.is_fetching {
            BrowserBody::Message("Loading marketplace extensions...")
        } else if self.entries.len() == 0 {
            BrowserBody::Message("Failed to load marketplace extensions")
        } else {
            let mut rows: Vec<BrowserRow> = Vec::new();
            let mut i: usize = 0;
            while i < self.filtered_indices.len()
                invariant
                    self.wf(),
                    i <= self.filtered_indices@.len(),
                    rows@.len() == i,
                    forall|k: int|
                        0 <= k < i ==> row_shows(
                            #[trigger] rows@[k],
                            self.entries@[self.filtered_indices@[k] as int],
                        ),
                decreases self.filtered_indices@.len() - i,
            {
                rows.push(MarketplaceBrowser::row(&self.entries[self.filtered_indices[i]]));
                i += 1;
            }
            BrowserBody::Rows(rows)
        };
        let count = self.filtered_indices.len();
        let mut footer = String::new();
        push_decimal(&mut footer, count as u64);
        footer.append(" extension");
        footer.append(
            if count != 1 {
                "s"
            } else {
                ""
            },
        );
        footer.append(" available");
        assert(footer@ =~= footer_text(self.filtered_indices@.len()));
        BrowserPage { headline: "Extension Marketplace", body, footer }
    }
}

/// What a request to open the page leads to.
#[derive(Debug, Clone, Copy, PartialEq, Eq, Structural)]
pub enum OpenAction {
    /// The page at this place of the active pane comes to the front.
    Activate(usize),
    /// A new page is added to the active pane.
    Add,
}

/// Opens the page: the first page that the active pane already shows, or a new one.
/// `is_browser` says of each item of the pane whether it is such a page.
pub fn open_marketplace(is_browser: &[bool]) -> (action: OpenAction)
    ensures
        match action {
            OpenAction::Activate(at) => at < is_browser@.len() && is_browser@[at as int]
                && forall|i: int| 0 <= i < at ==> !(#[trigger] is_browser@[i]),
            OpenAction::Add => forall|i: int|
                0 <= i < is_browser@.len() ==> !(#[trigger] is_browser@[i]),
        },
{
    let mut i: usize = 0;
    while i < is_browser.len()
        invariant
            i <= is_browser@.len(),
            forall|k: int| 0 <= k < i ==> !(#[trigger] is_browser@[k]),
        decreases is_browser@.len() - i,
    {
        if is_browser[i] {
            return OpenAction::Activate(i);
        }
        i += 1;
    }
    OpenAction::Add
}

/// The row of an extension offers to take it off where it is installed, and to install just the
/// version that the registry has where it is not.
pub proof fn law_row_offers_what_can_be_done(row: BrowserRow, extension: MarketplaceExtension)
    requires
        row_shows(row, extension),
    ensures
        row.headline@ == extension.entry.name@,
        row.description@ == extension.entry.description@,
        row.details@ == extension.entry.id@ + " · v"@ + crate::marketplace::version_text(
            extension.entry.version,
        ) + " · by "@ + extension.entry.author@,
        extension.installed <==> row.action is Uninstall,
        extension.installed ==> row.button_label@ == "Uninstall"@ && row.button_id@ == "uninstall-"@
            + extension.entry.id@ && row.action->Uninstall_id@ == extension.entry.id@,
        !extension.installed ==> row.button_label@ == "Install"@ && row.button_id@ == "install-"@
            + extension.entry.id@ && row.action->Install_id@ == extension.entry.id@
            && row.action->version@ == crate::marketplace::version_text(extension.entry.version),
{
}

/// The footer counts the extensions, in the singular for one and in the plural for any other
/// number.
pub proof fn law_footer_counts(count: nat)
    ensures
        count == 1 ==> footer_text(count) == crate::text::decimal_text(count)
            + " extension available"@,
        count != 1 ==> footer_text(count) == crate::text::decimal_text(count)
            + " extensions available"@,
{
    reveal_strlit(" extension");
    reveal_strlit("s");
    reveal_strlit("");
    reveal_strlit(" available");
    reveal_strlit(" extension available");
    reveal_strlit(" extensions available");
    let number = crate::text::decimal_text(count);
    if count == 1 {
        assert(" extension"@ + ""@ + " available"@ =~= " extension available"@);
        assert(footer_text(count) =~= number + (" extension"@ + ""@ + " available"@));
    } else {
        assert(" extension"@ + "s"@ + " available"@ =~= " extensions available"@);
        assert(footer_text(count) =~= number + (" extension"@ + "s"@ + " available"@));
    }
}

/// An extension of the registry is listed as installed just where a version of it is, and then with
/// that version.
pub proof fn law_installed_version_is_listed(
    extension: MarketplaceExtension,
    entry: MarketplaceEntry,
    installed: Map<Seq<char>, String>,
)
    requires
        listed(extension, entry, installed),
    ensures
        extension.entry.id@ == entry.id@,
        extension.installed <==> installed.contains_key(entry.id@),
        extension.installed ==> extension.installed_version@ == installed[entry.id@]@,
        !extension.installed ==> extension.installed_version@ == "not installed"@,
{
}

} // verus!
