//! The keybindings that are layered on top of the player's defaults.

use vstd::hash_map::StringHashMap;
use vstd::prelude::*;

use crate::command::{Command, MoveAmount, MoveMode, SeekDirection, WHOLE_SCREEN};

verus! {

/// A key and the commands that it runs.
pub type BindingView = (Seq<char>, Seq<Command>);

/// Move the selection to the playing track.
pub open spec fn to_playing() -> Command {
    Command::Move(MoveMode::Playing, MoveAmount::Integer(1))
}

/// The keys, those that override a default first, then those that the defaults leave unbound.
pub open spec fn fork_table() -> Seq<BindingView> {
    seq![
        ("q"@, seq![Command::Queue]),
        ("Shift+q"@, seq![Command::Quit]),
        ("p"@, seq![Command::TogglePlay]),
        ("Space"@, seq![Command::TogglePlay]),
        ("<"@, seq![Command::Previous, to_playing()]),
        (">"@, seq![Command::Next, to_playing()]),
        ("Backspace"@, seq![Command::RemoveFromPlaylists]),
        ("Shift+p"@, seq![to_playing()]),
        ("Shift+k"@, seq![Command::Move(MoveMode::Up, MoveAmount::Integer(5))]),
        ("Shift+j"@, seq![Command::Move(MoveMode::Down, MoveAmount::Integer(5))]),
        ("PageUp"@, seq![Command::Move(MoveMode::Up, MoveAmount::Float(WHOLE_SCREEN))]),
        ("PageDown"@, seq![Command::Move(MoveMode::Down, MoveAmount::Float(WHOLE_SCREEN))]),
        ("1"@, seq![Command::Play]),
        ("2"@, seq![Command::Previous, to_playing()]),
        ("3"@, seq![Command::Next, to_playing()]),
        ("`"@, seq![Command::BindKey]),
        ("'"@, seq![Command::ToggleSortFilter]),
        ("Shift+Right"@, seq![Command::Seek(SeekDirection::Relative(10000))]),
        ("Shift+Left"@, seq![Command::Seek(SeekDirection::Relative((-10000) as i32))]),
    ]
}

/// The commands by key of a list of bindings: of two bindings of one key the later counts.
pub open spec fn commands_by_key(table: Seq<BindingView>) -> Map<Seq<char>, Seq<Command>>
    decreases table.len(),
{
    if table.len() == 0 {
        Map::empty()
    } else {
        commands_by_key(table.drop_last()).insert(table.last().0, table.last().1)
    }
}

/// A key and the commands that it runs.
struct Binding {
    key: &'static str,
    commands: Vec<Command>,
}

impl View for Binding {
    type V = BindingView;

    closed spec fn view(&self) -> BindingView {
        (self.key@, self.commands@)
    }
}

/// One row of the table.
fn row(key: &'static str, commands: Vec<Command>) -> (r: Binding)
    ensures
        r@ == (key@, commands@),
{
    Binding { key, commands }
}

/// The rows of the table.
fn rows() -> (r: Vec<Binding>)
    ensures
        r@.map_values(|b: Binding| b@) == fork_table(),
{
    let r = vec![
        row("q", vec![Command::Queue]),
        row("Shift+q", vec![Command::Quit]),
        row("p", vec![Command::TogglePlay]),
        row("Space", vec![Command::TogglePlay]),
        row("<", vec![Command::Previous, Command::Move(MoveMode::Playing, MoveAmount::default())]),
        row(">", vec![Command::Next, Command::Move(MoveMode::Playing, MoveAmount::default())]),
        row("Backspace", vec![Command::RemoveFromPlaylists]),
        row("Shift+p", vec![Command::Move(MoveMode::Playing, MoveAmount::default())]),
        row("Shift+k", vec![Command::Move(MoveMode::Up, MoveAmount::Integer(5))]),
        row("Shift+j", vec![Command::Move(MoveMode::Down, MoveAmount::Integer(5))]),
        row("PageUp", vec![Command::Move(MoveMode::Up, MoveAmount::Float(WHOLE_SCREEN))]),
        row("PageDown", vec![Command::Move(MoveMode::Down, MoveAmount::Float(WHOLE_SCREEN))]),
        row("1", vec![Command::Play]),
        row("2", vec![Command::Previous, Command::Move(MoveMode::Playing, MoveAmount::default())]),
        row("3", vec![Command::Next, Command::Move(MoveMode::Playing, MoveAmount::default())]),
        row("`", vec![Command::BindKey]),
        row("'", vec![Command::ToggleSortFilter]),
        row("Shift+Right", vec![Command::Seek(SeekDirection::Relative(10000))]),
        row("Shift+Left", vec![Command::Seek(SeekDirection::Relative(-10000))]),
    ];
    assert(r@.map_values(|b: Binding| b@) =~~= fork_table());
    r
}

/// The keybindings that are layered on top of the player's defaults: applied after them, a key
/// that is present here overrides the default binding of that key.
pub fn fork_keybindings() -> (r: StringHashMap<Vec<Command>>)
    ensures
        r@.map_values(|v: Vec<Command>| v@) == commands_by_key(fork_table()),
{
    let mut rows = rows();
    let ghost table = fork_table();
    let mut kb: StringHashMap<Vec<Command>> = StringHashMap::new();
    let mut n: Ghost<int> = Ghost(0);
    assert(table.take(0) =~= Seq::empty());
    assert(kb@.map_values(|v: Vec<Command>| v@) =~= commands_by_key(table.take(0)));
    while rows.len() > 0
        invariant
            table == fork_table(),
            0 <= n@ <= table.len(),
            rows@.map_values(|b: Binding| b@) == table.skip(n@),
            kb@.map_values(|v: Vec<Command>| v@) == commands_by_key(table.take(n@)),
        decreases rows.len(),
    {
        let ghost before = rows@;
        let Binding { key, commands } = rows.remove(0);
        proof {
            assert(table.skip(n@).len() == before.len());
            assert(table.skip(n@)[0] == before[0]@);
            assert(table.take(n@ + 1).drop_last() =~= table.take(n@));
            assert(table.take(n@ + 1).last() == (key@, commands@));
            assert forall|k: int| 0 <= k < rows@.len() implies (#[trigger] rows@[k])@ == table.skip(n@ + 1)[k] by {
                assert(before.map_values(|b: Binding| b@)[k + 1] == table.skip(n@)[k + 1]);
            }
            assert(rows@.map_values(|b: Binding| b@) =~= table.skip(n@ + 1));
        }
        let ghost kb_before = kb@;
        kb.insert(key.to_string(), commands);
        proof {
            assert(kb@.map_values(|v: Vec<Command>| v@) =~= kb_before.map_values(|v: Vec<Command>| v@).insert(
                key@,
                commands@,
            ));
            n@ = n@ + 1;
        }
    }
    assert(table.skip(n@).len() == 0);
    assert(table.take(n@) =~= table);
    kb
}

/// No key is bound twice.
pub proof fn law_keys_are_distinct()
    ensures
        forall|i: int, j: int|
            0 <= i < j < fork_table().len() ==> (#[trigger] fork_table()[i]).0 != (#[trigger] fork_table()[j]).0,
{
    reveal_strlit("q");
    reveal_strlit("Shift+q");
    reveal_strlit("p");
    reveal_strlit("Space");
    reveal_strlit("<");
    reveal_strlit(">");
    reveal_strlit("Backspace");
    reveal_strlit("Shift+p");
    reveal_strlit("Shift+k");
    reveal_strlit("Shift+j");
    reveal_strlit("PageUp");
    reveal_strlit("PageDown");
    reveal_strlit("1");
    reveal_strlit("2");
    reveal_strlit("3");
    reveal_strlit("`");
    reveal_strlit("'");
    reveal_strlit("Shift+Right");
    reveal_strlit("Shift+Left");
    let table = fork_table();
    let lens: Seq<nat> = seq![1, 7, 1, 5, 1, 1, 9, 7, 7, 7, 6, 8, 1, 1, 1, 1, 1, 11, 10];
    let ends: Seq<char> = seq![
        'q', 'q', 'p', 'e', '<', '>', 'e', 'p', 'k', 'j', 'p', 'n', '1', '2', '3', '`', '\'', 't', 't',
    ];
    assert forall|k: int| 0 <= k < table.len() implies (#[trigger] table[k]).0.len() == lens[k] && table[k].0.last()
        == ends[k] by {}
    assert forall|i: int, j: int| 0 <= i < j < table.len() implies (#[trigger] table[i]).0 != (#[trigger] table[j]).0 by {
        assert(lens[i] != lens[j] || ends[i] != ends[j]);
    }
}

/// Every key of the table runs the commands that stand beside it, and no other key is bound.
pub proof fn law_every_key_runs_its_commands()
    ensures
        forall|i: int|
            0 <= i < fork_table().len() ==> commands_by_key(fork_table()).contains_key((#[trigger] fork_table()[i]).0)
                && commands_by_key(fork_table())[fork_table()[i].0] == fork_table()[i].1,
        forall|key: Seq<char>| #[trigger] commands_by_key(fork_table()).contains_key(key) ==> exists|i: int|
            0 <= i < fork_table().len() && (#[trigger] fork_table()[i]).0 == key,
{
    law_keys_are_distinct();
    lemma_lookup(fork_table());
}

/// In a list of bindings of distinct keys every key has its commands.
proof fn lemma_lookup(table: Seq<BindingView>)
    requires
        forall|i: int, j: int| 0 <= i < j < table.len() ==> (#[trigger] table[i]).0 != (#[trigger] table[j]).0,
    ensures
        forall|i: int|
            0 <= i < table.len() ==> commands_by_key(table).contains_key((#[trigger] table[i]).0)
                && commands_by_key(table)[table[i].0] == table[i].1,
        forall|key: Seq<char>| #[trigger] commands_by_key(table).contains_key(key) ==> exists|i: int|
            0 <= i < table.len() && (#[trigger] table[i]).0 == key,
    decreases table.len(),
{
    if table.len() > 0 {
        let head = table.drop_last();
        lemma_lookup(head);
        assert forall|i: int| 0 <= i < table.len() implies commands_by_key(table).contains_key((#[trigger] table[i]).0)
            && commands_by_key(table)[table[i].0] == table[i].1 by {
            if i < head.len() {
                assert(head[i] == table[i]);
                assert(table[i].0 != table[table.len() - 1].0);
            }
        }
        assert forall|key: Seq<char>| #[trigger] commands_by_key(table).contains_key(key) implies exists|i: int|
            0 <= i < table.len() && (#[trigger] table[i]).0 == key by {
            if commands_by_key(head).contains_key(key) {
                let i = choose|i: int| 0 <= i < head.len() && (#[trigger] head[i]).0 == key;
                assert(table[i].0 == key);
            } else {
                assert(table[table.len() - 1].0 == key);
            }
        }
    }
}

/// What each of the keys does: playback and queue, going back and forth with the selection following the
/// playing track, larger moves, ten seconds of seeking, and the sorting keys. There are 19 of them.
pub proof fn law_keys_do_what_is_promised()
    ensures
        ({
            let kb = commands_by_key(fork_table());
            let follow = Command::Move(MoveMode::Playing, MoveAmount::Integer(1));
            &&& fork_table().len() == 19
            &&& kb["q"@] == seq![Command::Queue] && kb["Shift+q"@] == seq![Command::Quit]
            &&& kb["p"@] == seq![Command::TogglePlay] && kb["Space"@] == kb["p"@] && kb["1"@] == seq![Command::Play]
            &&& kb["<"@] == seq![Command::Previous, follow] && kb["2"@] == kb["<"@]
            &&& kb[">"@] == seq![Command::Next, follow] && kb["3"@] == kb[">"@] && kb["Shift+p"@] == seq![follow]
            &&& kb["Shift+k"@] == seq![Command::Move(MoveMode::Up, MoveAmount::Integer(5))]
            &&& kb["Shift+j"@] == seq![Command::Move(MoveMode::Down, MoveAmount::Integer(5))]
            &&& kb["PageUp"@] == seq![Command::Move(MoveMode::Up, MoveAmount::Float(0x3f80_0000))]
            &&& kb["PageDown"@] == seq![Command::Move(MoveMode::Down, MoveAmount::Float(0x3f80_0000))]
            &&& kb["Shift+Right"@] == seq![Command::Seek(SeekDirection::Relative(10_000))]
            &&& kb["Shift+Left"@] == seq![Command::Seek(SeekDirection::Relative((-10_000) as i32))]
            &&& kb["Backspace"@] == seq![Command::RemoveFromPlaylists]
            &&& kb["`"@] == seq![Command::BindKey] && kb["'"@] == seq![Command::ToggleSortFilter]
        }),
{
    law_every_key_runs_its_commands();
    let table = fork_table();
    assert forall|i: int| 0 <= i < table.len() implies commands_by_key(table)[(#[trigger] table[i]).0]
        == table[i].1 by {}
    assert(table[0].0 == "q"@ && table[1].0 == "Shift+q"@ && table[2].0 == "p"@ && table[3].0 == "Space"@);
    assert(table[4].0 == "<"@ && table[5].0 == ">"@ && table[6].0 == "Backspace"@ && table[7].0 == "Shift+p"@);
    assert(table[8].0 == "Shift+k"@ && table[9].0 == "Shift+j"@ && table[10].0 == "PageUp"@);
    assert(table[11].0 == "PageDown"@ && table[12].0 == "1"@ && table[13].0 == "2"@ && table[14].0 == "3"@);
    assert(table[15].0 == "`"@ && table[16].0 == "'"@ && table[17].0 == "Shift+Right"@);
    assert(table[18].0 == "Shift+Left"@);
}

/// [`fork_keybindings`] has the sorting keys: Backspace takes a track out of the playlists, the backtick opens the
/// menu that binds a key, and the apostrophe switches the filter; and it has every key of the table with its
/// commands, and no other.
pub proof fn law_fork_keybindings(r: StringHashMap<Vec<Command>>, i: int, key: Seq<char>)
    requires
        call_ensures(fork_keybindings, (), r),
        0 <= i < fork_table().len(),
    ensures
        r@["Backspace"@]@ == seq![Command::RemoveFromPlaylists],
        r@["`"@]@ == seq![Command::BindKey],
        r@["'"@]@ == seq![Command::ToggleSortFilter],
        r@.contains_key(fork_table()[i].0) && r@[fork_table()[i].0]@ == fork_table()[i].1,
        r@.contains_key(key) ==> exists|k: int| 0 <= k < fork_table().len() && (#[trigger] fork_table()[k]).0 == key,
{
    law_keys_do_what_is_promised();
    law_every_key_runs_its_commands();
    let kb = r@.map_values(|v: Vec<Command>| v@);
    let table = fork_table();
    assert(kb == commands_by_key(table));
    assert(kb.contains_key(key) == r@.contains_key(key));
    assert(kb.contains_key(table[i].0));
    assert(table[6].0 == "Backspace"@ && table[15].0 == "`"@ && table[16].0 == "'"@);
    assert(kb.contains_key(table[6].0) && kb.contains_key(table[15].0) && kb.contains_key(table[16].0));
}

} // verus!
