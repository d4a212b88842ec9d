//! The menu that binds a key to a playlist: which playlists it lists, and what is bound and unbound.
//!
//! Bindings are handed in as pairs of a lower-case playlist name and the key bound to it, as the
//! configuration holds them at that moment.

use vstd::prelude::*;
use vstd::string::StringExecFns;

use crate::command::Command;
#[allow(unused_imports)]
use crate::filters::{lemma_filter_picks, picked_from};
use crate::model::Playlist;
#[allow(unused_imports)]
use crate::model::{playlists_of, PlaylistView};
use crate::sort::SortState;
#[allow(unused_imports)]
use crate::sort::{bindings_of, law_every_pair_binds_its_name, law_the_last_binding_of_a_name_counts};
use crate::text::pad_right;
#[allow(unused_imports)]
use crate::text::{ascii_lower, padded, text_of};

verus! {

/// The width of the column of playlist names.
pub const NAME_WIDTH: usize = 24;

/// An entry of the menu.
pub struct MenuRow {
    pub label: String,
    pub playlist: Playlist,
}

/// The contents of a [`MenuRow`].
#[verifier::ext_equal]
pub struct MenuRowView {
    pub label: Seq<char>,
    pub playlist: PlaylistView,
}

impl View for MenuRow {
    type V = MenuRowView;

    open spec fn view(&self) -> MenuRowView {
        MenuRowView { label: self.label@, playlist: self.playlist@ }
    }
}

/// What the menu shows.
enum Page {
    /// The playlists to choose from.
    List(Vec<MenuRow>),
    /// The prompt for the key of this playlist.
    Prompt(Playlist),
}

/// The menu that binds a key to a playlist.
pub struct BindKeyMenu {
    page: Page,
}

/// The contents of a [`BindKeyMenu`].
#[verifier::ext_equal]
pub enum MenuView {
    List(Seq<MenuRowView>),
    Prompt(PlaylistView),
}

impl View for BindKeyMenu {
    type V = MenuView;

    closed spec fn view(&self) -> MenuView {
        match self.page {
            Page::List(rows) => MenuView::List(rows_of(rows@)),
            Page::Prompt(playlist) => MenuView::Prompt(playlist@),
        }
    }
}

/// A binding to add to the configuration, after which it has to be loaded again.
pub struct NewBinding {
    pub key: String,
    /// The command that the key runs.
    pub command: String,
    /// What to tell the user.
    pub message: String,
}

/// A binding to remove from the configuration, after which it has to be loaded again.
pub struct OldBinding {
    pub key: String,
    /// What to tell the user.
    pub message: String,
}

/// What is left to do for a command.
#[derive(Clone, Copy, Debug, PartialEq, Eq, Structural)]
pub enum MenuAction {
    /// Close the menu.
    Close,
    /// Leave the command to the list of playlists.
    Select,
    Nothing,
}

/// The key bound to the playlist of the name.
pub open spec fn key_for(bindings: Map<Seq<char>, Seq<char>>, name: Seq<char>) -> Option<Seq<char>> {
    if bindings.contains_key(ascii_lower(name)) {
        Some(bindings[ascii_lower(name)])
    } else {
        None
    }
}

/// The entry of a playlist: its name, then its key or a dash.
pub open spec fn row_of(bindings: Map<Seq<char>, Seq<char>>, p: PlaylistView) -> MenuRowView {
    MenuRowView {
        label: padded(p.name, NAME_WIDTH as nat) + " "@ + match key_for(bindings, p.name) {
            Some(key) => key,
            None => "-"@,
        },
        playlist: p,
    }
}

/// Whether the user may put tracks into the playlist.
pub open spec fn is_writable(user_id: Seq<char>, p: PlaylistView) -> bool {
    user_id == p.owner_id || p.collaborative
}

/// The entries of the menu: the playlists that the user may put tracks into, in their order.
pub open spec fn menu_rows(
    bindings: Map<Seq<char>, Seq<char>>,
    user_id: Seq<char>,
    playlists: Seq<PlaylistView>,
) -> Seq<MenuRowView> {
    playlists.filter(|p: PlaylistView| is_writable(user_id, p)).map_values(|p: PlaylistView| row_of(bindings, p))
}

/// The contents of a list of entries.
pub open spec fn rows_of(v: Seq<MenuRow>) -> Seq<MenuRowView> {
    v.map_values(|r: MenuRow| r@)
}

/// The key bound to the playlist of this name, if any.
fn bound_key(bindings: &Vec<(String, String)>, name: &String) -> (r: Option<String>)
    ensures
        text_of(r) == key_for(bindings_of(bindings@), name@),
{
    let mut state = SortState::create();
    state.refresh(bindings);
    state.key_of(name)
}

/// List the playlists that the user may put tracks into, each with the key it is bound to.
fn bind_key_playlist_dialog(
    playlists: &Vec<Playlist>,
    user_id: &String,
    bindings: &Vec<(String, String)>,
) -> (r: Vec<MenuRow>)
    ensures
        rows_of(r@) == menu_rows(bindings_of(bindings@), user_id@, playlists_of(playlists@)),
{
    let ghost bound = bindings_of(bindings@);
    let ghost all = playlists_of(playlists@);
    let ghost keep = |p: PlaylistView| is_writable(user_id@, p);
    let ghost entry = |p: PlaylistView| row_of(bound, p);
    let mut rows: Vec<MenuRow> = Vec::new();
    assert(all.take(0) =~= Seq::empty());
    assert(rows_of(rows@) =~= all.take(0).filter(keep).map_values(entry)) by {
        reveal(Seq::filter);
    }
    for i in 0..playlists.len()
        invariant
            bound == bindings_of(bindings@),
            all == playlists_of(playlists@),
            keep == (|p: PlaylistView| is_writable(user_id@, p)),
            entry == (|p: PlaylistView| row_of(bound, p)),
            rows_of(rows@) == all.take(i as int).filter(keep).map_values(entry),
    {
        let list = &playlists[i];
        proof {
            assert(all.take(i + 1).drop_last() =~= all.take(i as int));
            assert(all.take(i + 1).last() == list@);
            reveal(Seq::filter);
        }
        if *user_id == list.owner_id || list.collaborative {
            let key = match bound_key(bindings, &list.name) {
                Some(key) => key,
                None => "-".to_string(),
            };
            let mut label = pad_right(&list.name, NAME_WIDTH);
            label.append(" ");
            label.append(key.as_str());
            let row = MenuRow { label, playlist: list.clone() };
            let ghost before = rows@;
            let ghost kept = all.take(i as int).filter(keep);
            rows.push(row);
            proof {
                assert(row@ == row_of(bound, list@));
                assert(rows_of(rows@) =~= rows_of(before).push(row@));
                assert(kept.push(list@).map_values(entry) =~= kept.map_values(entry).push(entry(list@)));
            }
        }
    }
    assert(all.take(all.len() as int) =~= all);
    rows
}

impl BindKeyMenu {
    /// The menu, with the playlists to choose from.
    pub fn bind_key_dialog(playlists: &Vec<Playlist>, user_id: &String, bindings: &Vec<(String, String)>) -> (r: Self)
        ensures
            r@ == MenuView::List(menu_rows(bindings_of(bindings@), user_id@, playlists_of(playlists@))),
    {
        BindKeyMenu { page: Page::List(bind_key_playlist_dialog(playlists, user_id, bindings)) }
    }

    /// The entries to choose from, unless a key is being asked for.
    pub fn rows(&self) -> (r: Option<&Vec<MenuRow>>)
        ensures
            match r {
                Some(rows) => self@ == MenuView::List(rows_of(rows@)),
                None => self@ is Prompt,
            },
    {
        match &self.page {
            Page::List(rows) => Some(rows),
            Page::Prompt(_) => None,
        }
    }

    /// Go on from the chosen entry to the prompt for its key.
    pub fn choose_row(&mut self, selected: usize)
        ensures
            final(self)@ == (match old(self)@ {
                MenuView::List(rows) => if selected < rows.len() {
                    MenuView::Prompt(rows[selected as int].playlist)
                } else {
                    old(self)@
                },
                MenuView::Prompt(_) => old(self)@,
            }),
    {
        let chosen = match &self.page {
            Page::List(rows) => if selected < rows.len() {
                Some(rows[selected].playlist.clone())
            } else {
                None
            },
            Page::Prompt(_) => None,
        };
        match chosen {
            Some(playlist) => {
                self.page = Page::Prompt(playlist);
            },
            None => {},
        }
    }

    /// The binding for the key that was typed at the prompt. Nothing is bound if no key was typed.
    /// The menu closes in either case.
    pub fn bind_key_prompt_dialog(&self, key: &String) -> (r: Option<NewBinding>)
        ensures
            match r {
                Some(b) => {
                    &&& self@ matches MenuView::Prompt(playlist)
                    &&& key@.len() > 0
                    &&& b.key@ == key@
                    &&& b.command@ == "addtoplaylist "@ + playlist.name
                    &&& b.message@ == "Bound \""@ + key@ + "\" to playlist \""@ + playlist.name + "\""@
                },
                None => key@.len() == 0 || self@ is List,
            },
    {
        let playlist = match &self.page {
            Page::Prompt(playlist) => playlist,
            Page::List(_) => {
                return None;
            },
        };
        if key.as_str().is_empty() {
            return None;
        }
        let mut command = "addtoplaylist ".to_string();
        command.append(playlist.name.as_str());
        let mut message = "Bound \"".to_string();
        message.append(key.as_str());
        message.append("\" to playlist \"");
        message.append(playlist.name.as_str());
        message.append("\"");
        Some(NewBinding { key: key.clone(), command, message })
    }

    /// The playlist whose binding a key press clears: Backspace does so on the selected entry.
    /// Anything else, and Backspace at the prompt, is left to the dialog.
    pub fn wrap_on_event(&self, is_backspace: bool, selected: Option<usize>) -> (r: Option<Playlist>)
        ensures
            match r {
                Some(p) => {
                    &&& is_backspace
                    &&& self@ matches MenuView::List(rows)
                    &&& selected matches Some(i)
                    &&& i < rows.len()
                    &&& p@ == rows[i as int].playlist
                },
                None => !is_backspace || self@ is Prompt || selected is None || selected->0
                    >= self@->List_0.len(),
            },
    {
        if !is_backspace {
            return None;
        }
        match (&self.page, selected) {
            (Page::List(rows), Some(i)) => if i < rows.len() {
                Some(rows[i].playlist.clone())
            } else {
                None
            },
            _ => None,
        }
    }

    /// React to a command: going back closes the menu, moving is for the list of playlists if it is
    /// there, and every other command ends here.
    pub fn on_command(&self, cmd: &Command) -> (r: MenuAction)
        ensures
            r == (match *cmd {
                Command::Back => MenuAction::Close,
                Command::Move(_, _) => if self@ is List {
                    MenuAction::Select
                } else {
                    MenuAction::Nothing
                },
                _ => MenuAction::Nothing,
            }),
    {
        handle_move_command(
            cmd,
            match &self.page {
                Page::List(_) => true,
                Page::Prompt(_) => false,
            },
        )
    }
}

/// The binding to remove for a playlist, if it has one. The list then has to be made anew.
pub fn clear_binding(bindings: &Vec<(String, String)>, playlist: &Playlist) -> (r: Option<OldBinding>)
    ensures
        match r {
            Some(b) => {
                &&& key_for(bindings_of(bindings@), playlist@.name) == Some(b.key@)
                &&& b.message@ == "Unbound \""@ + b.key@ + "\" from playlist \""@ + playlist@.name + "\""@
            },
            None => key_for(bindings_of(bindings@), playlist@.name) is None,
        },
{
    match bound_key(bindings, &playlist.name) {
        Some(key) => {
            let mut message = "Unbound \"".to_string();
            message.append(key.as_str());
            message.append("\" from playlist \"");
            message.append(playlist.name.as_str());
            message.append("\"");
            Some(OldBinding { key, message })
        },
        None => None,
    }
}

/// What a command means for a menu that may or may not hold a list to move in.
fn handle_move_command(cmd: &Command, has_list: bool) -> (r: MenuAction)
    ensures
        r == (match *cmd {
            Command::Back => MenuAction::Close,
            Command::Move(_, _) => if has_list {
                MenuAction::Select
            } else {
                MenuAction::Nothing
            },
            _ => MenuAction::Nothing,
        }),
{
    match cmd {
        Command::Back => MenuAction::Close,
        Command::Move(_, _) => if has_list {
            MenuAction::Select
        } else {
            MenuAction::Nothing
        },
        _ => MenuAction::Nothing,
    }
}

/// The menu lists a playlist if and only if the user may put tracks into it.
pub proof fn law_menu_lists_the_writable_playlists(
    bindings: Map<Seq<char>, Seq<char>>,
    user_id: Seq<char>,
    playlists: Seq<PlaylistView>,
    p: PlaylistView,
)
    requires
        playlists.contains(p),
    ensures
        menu_rows(bindings, user_id, playlists).contains(row_of(bindings, p)) <==> is_writable(user_id, p),
{
    broadcast use vstd::seq_lib::group_filter_ensures;

    let keep = |q: PlaylistView| is_writable(user_id, q);
    let kept = playlists.filter(keep);
    let rows = menu_rows(bindings, user_id, playlists);
    if is_writable(user_id, p) {
        let i = choose|i: int| 0 <= i < playlists.len() && playlists[i] == p;
        assert(keep(playlists[i]));
        assert(kept.contains(p));
        let j = choose|j: int| 0 <= j < kept.len() && kept[j] == p;
        assert(rows[j] == row_of(bindings, p));
    }
    if rows.contains(row_of(bindings, p)) {
        let j = choose|j: int| 0 <= j < rows.len() && rows[j] == row_of(bindings, p);
        assert(rows[j].playlist == kept[j]);
        assert(keep(kept[j]));
    }
}

/// Once a playlist's binding is the last to be added to the configuration the menu shows its key,
/// and the key is the one to be cleared.
pub proof fn law_menu_shows_the_bound_key(bindings: Map<Seq<char>, Seq<char>>, p: PlaylistView, key: Seq<char>)
    ensures
        key_for(bindings.insert(ascii_lower(p.name), key), p.name) == Some(key),
        row_of(bindings.insert(ascii_lower(p.name), key), p).label == padded(p.name, NAME_WIDTH as nat) + " "@ + key,
        key_for(bindings.remove(ascii_lower(p.name)), p.name) is None,
        row_of(bindings.remove(ascii_lower(p.name)), p).label == padded(p.name, NAME_WIDTH as nat) + " "@ + "-"@,
{
}

/// The menu has, in order, one entry for each playlist that the user owns or that is collaborative, and no
/// other: the name in a column of 24, a space, and the key of the lowered name or a dash.
pub proof fn law_menu_entries_in_order(
    bindings: Map<Seq<char>, Seq<char>>,
    user_id: Seq<char>,
    playlists: Seq<PlaylistView>,
)
    ensures
        ({
            let open = |p: PlaylistView| p.owner_id == user_id || p.collaborative;
            let rows = menu_rows(bindings, user_id, playlists);
            exists|kept: Seq<PlaylistView>|
                {
                    &&& #[trigger] picked_from(playlists, open, kept)
                    &&& rows.len() == kept.len()
                    &&& forall|k: int|
                        0 <= k < rows.len() ==> {
                            &&& (#[trigger] rows[k]).playlist == kept[k]
                            &&& rows[k].label == padded(kept[k].name, 24) + seq![' '] + if bindings.contains_key(
                                ascii_lower(kept[k].name),
                            ) {
                                bindings[ascii_lower(kept[k].name)]
                            } else {
                                seq!['-']
                            }
                        }
                }
        }),
{
    let open = |p: PlaylistView| p.owner_id == user_id || p.collaborative;
    let keep = |p: PlaylistView| is_writable(user_id, p);
    let rows = menu_rows(bindings, user_id, playlists);
    let kept = playlists.filter(keep);
    assert(keep =~= open);
    let at = lemma_filter_picks(playlists, keep);
    reveal_strlit(" ");
    reveal_strlit("-");
    assert(" "@ =~= seq![' ']);
    assert("-"@ =~= seq!['-']);
    assert(picked_from(playlists, open, kept));
}

/// The key of a playlist is the one that the configuration has for its name, whatever the case of the
/// ASCII letters.
pub proof fn law_keys_ignore_the_case_of_names(bindings: Map<Seq<char>, Seq<char>>, a: Seq<char>, b: Seq<char>)
    requires
        ascii_lower(a) == ascii_lower(b),
    ensures
        key_for(bindings, a) == key_for(bindings, b),
        key_for(bindings, a) is Some <==> bindings.contains_key(ascii_lower(a)),
        key_for(bindings, a) matches Some(key) ==> bindings[ascii_lower(a)] == key,
{
}

// --- Laws of the operations ------------------------------------------------------------------

/// From [`BindKeyMenu::choose_row`] to the binding: the key that is typed for a chosen entry is bound to the command
/// that files into that entry's playlist, and an empty key binds nothing.
pub proof fn law_chosen_playlist_is_bound(
    menu: &mut BindKeyMenu,
    selected: usize,
    key: &String,
    r: Option<NewBinding>,
)
    requires
        call_ensures(BindKeyMenu::choose_row, (menu, selected), ()),
        call_ensures(BindKeyMenu::bind_key_prompt_dialog, (&*final(menu), key), r),
        old(menu)@ is List,
        selected < old(menu)@->List_0.len(),
    ensures
        r is Some <==> key@.len() > 0,
        r matches Some(b) ==> {
            let name = old(menu)@->List_0[selected as int].playlist.name;
            &&& b.key@ == key@
            &&& b.command@ == "addtoplaylist "@ + name
            &&& b.message@ == "Bound \""@ + key@ + "\" to playlist \""@ + name + "\""@
        },
{
}

/// Backspace in the list clears the binding of the selected entry's playlist, and nothing anywhere else.
pub proof fn law_backspace_clears_the_selected(
    menu: &BindKeyMenu,
    is_backspace: bool,
    selected: Option<usize>,
    r: Option<Playlist>,
)
    requires
        call_ensures(BindKeyMenu::wrap_on_event, (menu, is_backspace, selected), r),
    ensures
        r is Some <==> is_backspace && menu@ is List && selected is Some && selected->0 < menu@->List_0.len(),
        r matches Some(p) ==> p@ == menu@->List_0[selected->0 as int].playlist,
{
}

/// [`clear_binding`] gives the key that is bound to the lowered name of the playlist, by the last pair of that name,
/// and nothing if no pair has it.
pub proof fn law_clear_binding(
    bindings: &Vec<(String, String)>,
    playlist: &Playlist,
    r: Option<OldBinding>,
    i: int,
)
    requires
        call_ensures(clear_binding, (bindings, playlist), r),
        0 <= i < bindings@.len(),
        bindings@[i].0@ == ascii_lower(playlist.name@),
        forall|j: int| i < j < bindings@.len() ==> (#[trigger] bindings@[j]).0@ != bindings@[i].0@,
    ensures
        r is Some,
        r->0.key@ == bindings@[i].1@,
        r->0.message@ == "Unbound \""@ + r->0.key@ + "\" from playlist \""@ + playlist.name@ + "\""@,
{
    law_the_last_binding_of_a_name_counts(bindings@, i);
    law_keys_ignore_the_case_of_names(bindings_of(bindings@), playlist.name@, playlist.name@);
}

/// [`clear_binding`] gives nothing if no pair has the playlist's lowered name.
pub proof fn law_nothing_to_clear(bindings: &Vec<(String, String)>, playlist: &Playlist, r: Option<OldBinding>)
    requires
        call_ensures(clear_binding, (bindings, playlist), r),
        forall|j: int| 0 <= j < bindings@.len() ==> (#[trigger] bindings@[j]).0@ != ascii_lower(playlist.name@),
    ensures
        r is None,
{
    law_every_pair_binds_its_name(bindings@, ascii_lower(playlist.name@));
    law_keys_ignore_the_case_of_names(bindings_of(bindings@), playlist.name@, playlist.name@);
}

/// [`BindKeyMenu::on_command`] closes the menu on going back and moves in the list if it is there; nothing else comes
/// of any command.
pub proof fn law_menu_commands(menu: &BindKeyMenu, cmd: &Command, r: MenuAction)
    requires
        call_ensures(BindKeyMenu::on_command, (menu, cmd), r),
    ensures
        r == MenuAction::Close <==> *cmd == Command::Back,
        r == MenuAction::Select <==> cmd is Move && menu@ is List,
{
}

/// [`BindKeyMenu::bind_key_dialog`] opens with, in order, one entry for each playlist that the user owns or that is
/// collaborative.
pub proof fn law_bind_key_dialog(
    playlists: &Vec<Playlist>,
    user_id: &String,
    bindings: &Vec<(String, String)>,
    r: BindKeyMenu,
)
    requires
        call_ensures(BindKeyMenu::bind_key_dialog, (playlists, user_id, bindings), r),
    ensures
        r@ is List,
        ({
            let open = |p: PlaylistView| p.owner_id == user_id@ || p.collaborative;
            let all = playlists_of(playlists@);
            exists|kept: Seq<PlaylistView>|
                {
                    &&& #[trigger] picked_from(all, open, kept)
                    &&& r@->List_0.len() == kept.len()
                    &&& forall|k: int| 0 <= k < kept.len() ==> (#[trigger] r@->List_0[k]).playlist == kept[k]
                }
        }),
{
    law_menu_entries_in_order(bindings_of(bindings@), user_id@, playlists_of(playlists@));
}

} // verus!
