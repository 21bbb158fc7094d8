use ndumplib::catalog::{Category, Game};
use ndumplib::import::{plan_import, GameAction, ImportCounts, ImportError, StoredGame};
use ndumplib::logiqx::{parse_games, parse_header, XmlElement};
use ndumplib::naming::compress_rom_name;

fn element_of(node: roxmltree::Node) -> XmlElement {
    XmlElement {
        tag: node.tag_name().name().to_string(),
        attributes: node
            .attributes()
            .map(|a| (a.name().to_string(), a.value().to_string()))
            .collect(),
        text: node.text().map(|t| t.to_string()),
        children: node.children().filter(|c| c.is_element()).map(element_of).collect(),
    }
}

fn datafile_games(xml: &str) -> Vec<Game> {
    let doc = roxmltree::Document::parse(xml).unwrap();
    let root = element_of(doc.root_element());
    parse_games(&root).ok().unwrap()
}

/// The stored games of one datafile, updated the way the store carries out
/// an import plan.
struct Store {
    games: Vec<StoredGame>,
    next_gid: i64,
}

impl Store {
    fn new() -> Store {
        Store { games: Vec::new(), next_gid: 1 }
    }

    fn import(&mut self, parsed: Vec<Game>) -> Result<ImportCounts, ImportError> {
        let plan = plan_import(&self.games, &parsed)?;
        for (action, game) in plan.actions.iter().zip(parsed.into_iter()) {
            match *action {
                GameAction::Unchanged(_) => {}
                GameAction::CategoriesChanged(gid) => {
                    let g = self.games.iter_mut().find(|g| g.gid == gid).unwrap();
                    g.categories = game.categories;
                }
                GameAction::RomsChanged(gid, categories_changed) => {
                    let g = self.games.iter_mut().find(|g| g.gid == gid).unwrap();
                    g.revision += 1;
                    g.roms = game.roms;
                    if categories_changed {
                        g.categories = game.categories;
                    }
                }
                GameAction::Added => {
                    self.games.push(StoredGame {
                        gid: self.next_gid,
                        name: game.name,
                        revision: 0,
                        categories: game.categories,
                        roms: game.roms,
                    });
                    self.next_gid += 1;
                }
            }
        }
        self.games.retain(|g| !plan.removed.contains(&g.gid));
        Ok(plan.counts)
    }
}

fn counts(added: usize, changed: usize, unchanged: usize, removed: usize) -> ImportCounts {
    ImportCounts { unchanged, changed, added, removed }
}

const ALPHA: &str = r#"<datafile><header><name>X</name><description/><version>1.0</version><homepage/></header>
  <game name="Alpha"><category>Games</category>
    <rom name="Alpha.cue" size="88" crc="00000001" md5="00000000000000000000000000000000" sha1="0000000000000000000000000000000000000000"/>
  </game>
</datafile>"#;

const ALPHA_NEW_SHA1: &str = r#"<datafile><header><name>X</name><description/><version>1.1</version><homepage/></header>
  <game name="Alpha"><category>Games</category>
    <rom name="Alpha.cue" size="88" crc="00000001" md5="00000000000000000000000000000000" sha1="1111111111111111111111111111111111111111"/>
  </game>
</datafile>"#;

const ALPHA_DEMOS: &str = r#"<datafile><header><name>X</name><description/><version>1.2</version><homepage/></header>
  <game name="Alpha"><category>Demos</category>
    <rom name="Alpha.cue" size="88" crc="00000001" md5="00000000000000000000000000000000" sha1="1111111111111111111111111111111111111111"/>
  </game>
</datafile>"#;

const EMPTY: &str = r#"<datafile><header><name>X</name><description/><version>1.3</version><homepage/></header>
</datafile>"#;

const TWO_ALPHAS: &str = r#"<datafile><header><name>X</name><description/><version>1.0</version><homepage/></header>
  <game name="Alpha"><category>Games</category></game>
  <game name="Alpha"><category>Demos</category></game>
</datafile>"#;

#[test]
fn fresh_import_one_game() {
    let mut store = Store::new();
    let c = store.import(datafile_games(ALPHA)).ok().unwrap();
    assert_eq!(c, counts(1, 0, 0, 0));
    assert_eq!(store.games.len(), 1);
    assert_eq!(store.games[0].revision, 0);
    assert_eq!(store.games[0].roms.len(), 1);
    let rom = &store.games[0].roms[0];
    assert_eq!(compress_rom_name(&rom.name, &store.games[0].name), "$c");
    assert_eq!(store.games[0].categories, vec![Category::Games]);
}

#[test]
fn header_of_scenario_datafile() {
    let doc = roxmltree::Document::parse(ALPHA).unwrap();
    let header = parse_header(&element_of(doc.root_element())).ok().unwrap();
    assert_eq!(header.name, "X");
    assert_eq!(header.version, "1.0");
    assert_eq!(header.description, "");
    assert_eq!(header.homepage, "");
}

#[test]
fn idempotent_reimport() {
    let mut store = Store::new();
    store.import(datafile_games(ALPHA)).ok().unwrap();
    let c = store.import(datafile_games(ALPHA)).ok().unwrap();
    assert_eq!(c, counts(0, 0, 1, 0));
    assert_eq!(store.games[0].revision, 0);
    let plan = plan_import(&store.games, &datafile_games(ALPHA)).ok().unwrap();
    assert_eq!(plan.actions, vec![GameAction::Unchanged(store.games[0].gid)]);
    assert!(plan.removed.is_empty());
}

#[test]
fn rom_byte_change_bumps_revision() {
    let mut store = Store::new();
    store.import(datafile_games(ALPHA)).ok().unwrap();
    store.import(datafile_games(ALPHA)).ok().unwrap();
    let c = store.import(datafile_games(ALPHA_NEW_SHA1)).ok().unwrap();
    assert_eq!(c, counts(0, 1, 0, 0));
    assert_eq!(store.games[0].revision, 1);
    assert_eq!(store.games[0].roms[0].sha1, [0x11u8; 20]);
}

#[test]
fn category_edit_only() {
    let mut store = Store::new();
    store.import(datafile_games(ALPHA)).ok().unwrap();
    store.import(datafile_games(ALPHA_NEW_SHA1)).ok().unwrap();
    let plan = plan_import(&store.games, &datafile_games(ALPHA_DEMOS)).ok().unwrap();
    assert_eq!(plan.actions, vec![GameAction::CategoriesChanged(store.games[0].gid)]);
    let c = store.import(datafile_games(ALPHA_DEMOS)).ok().unwrap();
    assert_eq!(c, counts(0, 0, 1, 0));
    assert_eq!(store.games[0].revision, 1);
    assert_eq!(store.games[0].categories, vec![Category::Demos]);
}

#[test]
fn game_removal() {
    let mut store = Store::new();
    store.import(datafile_games(ALPHA)).ok().unwrap();
    let gid = store.games[0].gid;
    let plan = plan_import(&store.games, &datafile_games(EMPTY)).ok().unwrap();
    assert_eq!(plan.removed, vec![gid]);
    let c = store.import(datafile_games(EMPTY)).ok().unwrap();
    assert_eq!(c, counts(0, 0, 0, 1));
    assert!(store.games.is_empty());
}

#[test]
fn duplicate_name_rejected() {
    let mut store = Store::new();
    store.import(datafile_games(ALPHA)).ok().unwrap();
    let before: Vec<(i64, String, i64)> =
        store.games.iter().map(|g| (g.gid, g.name.clone(), g.revision)).collect();
    match store.import(datafile_games(TWO_ALPHAS)) {
        Err(ImportError::DuplicateGame { name }) => assert_eq!(name, "Alpha"),
        Ok(_) => panic!("a datafile with two games of one name was accepted"),
    }
    let after: Vec<(i64, String, i64)> =
        store.games.iter().map(|g| (g.gid, g.name.clone(), g.revision)).collect();
    assert_eq!(before, after);
    assert_eq!(store.games[0].categories, vec![Category::Games]);
}

#[test]
fn change_then_revert_raises_revision_by_two() {
    let mut store = Store::new();
    store.import(datafile_games(ALPHA)).ok().unwrap();
    let before = store.games[0].revision;
    assert_eq!(store.import(datafile_games(ALPHA_NEW_SHA1)).ok().unwrap(), counts(0, 1, 0, 0));
    assert_eq!(store.import(datafile_games(ALPHA)).ok().unwrap(), counts(0, 1, 0, 0));
    assert_eq!(store.games[0].revision, before + 2);
}

#[test]
fn rename_of_same_bytes_is_unchanged() {
    let mut store = Store::new();
    store.import(datafile_games(ALPHA)).ok().unwrap();
    let renamed = ALPHA.replace("name=\"Alpha.cue\"", "name=\"Alpha (Rev 1).cue\"");
    let c = store.import(datafile_games(&renamed)).ok().unwrap();
    assert_eq!(c, counts(0, 0, 1, 0));
    assert_eq!(store.games[0].revision, 0);
}

#[test]
fn empty_rom_sets_compare_equal() {
    let xml = r#"<datafile><header><name>X</name><description/><version>1</version><homepage/></header>
      <game name="Beta"/></datafile>"#;
    let mut store = Store::new();
    assert_eq!(store.import(datafile_games(xml)).ok().unwrap(), counts(1, 0, 0, 0));
    assert_eq!(store.import(datafile_games(xml)).ok().unwrap(), counts(0, 0, 1, 0));
    assert_eq!(store.games[0].revision, 0);
}

#[test]
fn mixed_datafile_counts_each_kind() {
    let first = r#"<datafile><header><name>X</name><description/><version>1</version><homepage/></header>
      <game name="A"><rom name="a" size="1" crc="00000001" md5="00000000000000000000000000000001" sha1="0000000000000000000000000000000000000001"/></game>
      <game name="B"><rom name="b" size="2" crc="00000002" md5="00000000000000000000000000000002" sha1="0000000000000000000000000000000000000002"/></game>
      <game name="C"/>
    </datafile>"#;
    let second = r#"<datafile><header><name>X</name><description/><version>2</version><homepage/></header>
      <game name="A"><rom name="a" size="1" crc="00000001" md5="00000000000000000000000000000001" sha1="0000000000000000000000000000000000000001"/></game>
      <game name="B"><rom name="b" size="3" crc="00000002" md5="00000000000000000000000000000002" sha1="0000000000000000000000000000000000000002"/></game>
      <game name="D"/>
    </datafile>"#;
    let mut store = Store::new();
    assert_eq!(store.import(datafile_games(first)).ok().unwrap(), counts(3, 0, 0, 0));
    assert_eq!(store.import(datafile_games(second)).ok().unwrap(), counts(1, 1, 1, 1));
    let names: Vec<&str> = store.games.iter().map(|g| g.name.as_str()).collect();
    assert_eq!(names, vec!["A", "B", "D"]);
    assert_eq!(store.games[1].revision, 1);
}
