//! The state of the pane with the serial settings, and what it reports.

use crate::baud::{all_bauds, Baud};
use vstd::prelude::*;

verus! {

/// What the pane reports after it was drawn.
#[derive(Debug)]
pub struct SerialSettingsPaneInfo {
    pub selected_port_name: Option<String>,
    pub selected_baud_rate: Baud,
    pub start_clicked: bool,
    pub stop_clicked: bool,
}

/// The choices made in the pane's two lists, by index.
#[derive(Debug)]
pub struct SerialSettingsPane {
    pub selected_port_name_idx: usize,
    pub selected_baud_rate_idx: usize,
}

/// The entries of the list of ports: the labels of the ports, or a single
/// entry that says that there are none.
pub open spec fn port_entries(labels: Option<Seq<Seq<char>>>) -> Seq<Seq<char>> {
    match labels {
        Some(labels) => labels,
        None => seq!["No Ports Available"@],
    }
}

impl SerialSettingsPane {
    /// A pane with the first entry of each list chosen.
    pub fn new() -> (pane: Self)
        ensures
            pane.selected_port_name_idx == 0,
            pane.selected_baud_rate_idx == 0,
    {
        SerialSettingsPane { selected_port_name_idx: 0, selected_baud_rate_idx: 0 }
    }

    /// The entries to show in the list of ports, given the labels of the
    /// ports that there are, if any.
    pub fn port_choices(port_labels: Option<&Vec<String>>) -> (entries: Vec<String>)
        ensures
            entries.deep_view() == port_entries(
                match port_labels {
                    Some(labels) => Some(labels.deep_view()),
                    None => None,
                },
            ),
    {
        let mut entries: Vec<String> = Vec::new();
        match port_labels {
            Some(labels) => {
                let mut i: usize = 0;
                while i < labels.len()
                    invariant
                        i <= labels.len(),
                        entries.deep_view() == labels.deep_view().take(i as int),
                    decreases labels.len() - i,
                {
                    let ghost before = entries.deep_view();
                    let label = labels[i].clone();
                    entries.push(label);
                    i += 1;
                    assert(entries.deep_view() =~= before.push(label@));
                    assert(labels.deep_view()[i as int - 1] == label@);
                    assert(before.push(label@) =~= labels.deep_view().take(i as int));
                }
                assert(labels.deep_view().take(labels.len() as int) =~= labels.deep_view());
            },
            None => {
                entries.push("No Ports Available".to_string());
                assert(entries.deep_view() =~= seq!["No Ports Available"@]);
            },
        }
        entries
    }

    /// The report of the pane: the baud rate and the port at the chosen
    /// indices, and the two clicks. Without ports there is no port name.
    /// An index beyond its list is not accepted.
    pub fn pane_info(
        &self,
        port_names: Option<&Vec<String>>,
        start_clicked: bool,
        stop_clicked: bool,
    ) -> (info: SerialSettingsPaneInfo)
        requires
            self.selected_baud_rate_idx < all_bauds().len(),
            port_names is Some ==> self.selected_port_name_idx < port_names->0.len(),
        ensures
            info.selected_baud_rate == all_bauds()[self.selected_baud_rate_idx as int],
            match port_names {
                Some(names) => info.selected_port_name == Some(
                    names[self.selected_port_name_idx as int],
                ),
                None => info.selected_port_name is None,
            },
            info.start_clicked == start_clicked,
            info.stop_clicked == stop_clicked,
    {
        let baud_rates = Baud::all();
        let selected_port_name = match port_names {
            Some(names) => Some(names[self.selected_port_name_idx].clone()),
            None => None,
        };
        SerialSettingsPaneInfo {
            selected_port_name,
            selected_baud_rate: baud_rates[self.selected_baud_rate_idx],
            start_clicked,
            stop_clicked,
        }
    }
}

impl Default for SerialSettingsPaneInfo {
    /// A report without a port, with the default baud rate and no click.
    fn default() -> (info: Self)
        ensures
            info.selected_port_name is None,
            info.selected_baud_rate == Baud::BAUD115200,
            !info.start_clicked,
            !info.stop_clicked,
    {
        SerialSettingsPaneInfo {
            selected_port_name: None,
            selected_baud_rate: Baud::BAUD115200,
            start_clicked: false,
            stop_clicked: false,
        }
    }
}

} // verus!
