//! Rules of the data-entry forms: identifier and range checks on records
//! before they are stored, identifiers of saved configurations, the search
//! targets of a query, and the tally of an import run.
use vstd::prelude::*;
use vstd::string::StrSliceExecFns;
use std::time::{Duration, SystemTime};
use crate::text::{decimal_int, decimal_nat, push_decimal_int, push_decimal_nat};

verus! {

/// A character identifier may hold only lowercase ASCII letters, digits
/// and underscores.
pub open spec fn id_char_ok(c: char) -> bool {
    ('a' <= c && c <= 'z') || ('0' <= c && c <= '9') || c == '_'
}

/// The error `validate_char_id` reports for an identifier, if any.
pub open spec fn char_id_error(id: Seq<char>) -> Option<Seq<char>> {
    if id.len() == 0 {
        Some("char_id is required"@)
    } else if !(forall|i: int| 0 <= i < id.len() ==> id_char_ok(#[trigger] id[i])) {
        Some("char_id '"@ + id
            + "' contains invalid characters. Only lowercase letters, digits, and underscores are allowed."@)
    } else {
        None
    }
}

/// Validate a char_id: only lowercase letters, digits, underscores allowed.
pub fn validate_char_id(char_id: &str) -> (r: Result<(), String>)
    ensures
        r is Ok <==> char_id_error(char_id@) is None,
        r matches Err(m) ==> char_id_error(char_id@) == Some(m@),
{
    if char_id.is_empty() {
        return Err(String::from_str("char_id is required"));
    }
    let n = char_id.unicode_len();
    let mut i: usize = 0;
    while i < n
        invariant
            n == char_id@.len(),
            i <= n,
            forall|j: int| 0 <= j < i ==> id_char_ok(#[trigger] char_id@[j]),
        decreases n - i,
    {
        let c = char_id.get_char(i);
        if !(('a' <= c && c <= 'z') || ('0' <= c && c <= '9') || c == '_') {
            let mut m = String::from_str("char_id '");
            m.append(char_id);
            m.append("' contains invalid characters. Only lowercase letters, digits, and underscores are allowed.");
            assert(!id_char_ok(char_id@[i as int]));
            return Err(m);
        }
        i = i + 1;
    }
    Ok(())
}

/// `"<field> <value> out of range (<lo>-<hi>)"`.
pub open spec fn out_of_range_msg(field: Seq<char>, value: int, range: Seq<char>) -> Seq<char> {
    field + " "@ + decimal_int(value) + " out of range ("@ + range + ")"@
}

fn out_of_range(field: &str, value: i32, range: &str) -> (m: String)
    ensures
        m@ == out_of_range_msg(field@, value as int, range@),
{
    let mut m = String::from_str(field);
    m.append(" ");
    push_decimal_int(&mut m, value as i64);
    m.append(" out of range (");
    m.append(range);
    m.append(")");
    assert(m@ =~= out_of_range_msg(field@, value as int, range@));
    m
}

/// The error reported for the identity fields of a character record
/// (identifier, name, level 1-60, ascension 0-6), in the order checked.
pub open spec fn character_basics_error(char_id: Seq<char>, name: Seq<char>, level: i32, ascension: i32) -> Option<Seq<char>> {
    if char_id_error(char_id) is Some {
        char_id_error(char_id)
    } else if name.len() == 0 {
        Some("name is required"@)
    } else if !(1 <= level <= 60) {
        Some(out_of_range_msg("level"@, level as int, "1-60"@))
    } else if !(0 <= ascension <= 6) {
        Some(out_of_range_msg("ascension"@, ascension as int, "0-6"@))
    } else {
        None
    }
}

/// Validate the identity fields of a character record: identifier, name,
/// level (1-60) and ascension (0-6). The stat ranges are checked after these.
pub fn validate_character_basics(char_id: &str, name: &str, level: i32, ascension: i32) -> (r: Result<(), String>)
    ensures
        r is Ok <==> character_basics_error(char_id@, name@, level, ascension) is None,
        r matches Err(m) ==> character_basics_error(char_id@, name@, level, ascension) == Some(m@),
{
    validate_char_id(char_id)?;
    if name.is_empty() {
        return Err(String::from_str("name is required"));
    }
    if !(1 <= level && level <= 60) {
        return Err(out_of_range("level", level, "1-60"));
    }
    if !(0 <= ascension && ascension <= 6) {
        return Err(out_of_range("ascension", ascension, "0-6"));
    }
    Ok(())
}

/// Flat record matching the `deployed_configs` table columns.
#[derive(Debug, Clone)]
pub struct DeployedConfigRecord {
    pub config_id: String,
    pub name: String,
    pub char_id: String,
    pub char_level: Option<i32>,
    pub char_ascension: Option<i32>,
    pub cinemas: Option<String>,
    pub potentials: Option<String>,
    pub wengine_id: Option<String>,
    pub wengine_level: Option<i32>,
    pub wengine_ascension: Option<i32>,
    pub disc_configs: Option<String>,
    pub created_at: Option<String>,
    pub updated_at: Option<String>,
}

/// An optional value outside its range, reported with the field's name.
pub open spec fn opt_range_error(field: Seq<char>, v: Option<i32>, lo: int, hi: int, range: Seq<char>) -> Option<Seq<char>> {
    match v {
        Some(x) => if lo <= x <= hi { None } else { Some(out_of_range_msg(field, x as int, range)) },
        None => None,
    }
}

/// The first error of a deployed configuration, in the order checked.
pub open spec fn deployed_config_error(rec: DeployedConfigRecord) -> Option<Seq<char>> {
    if rec.name@.len() == 0 {
        Some("name is required"@)
    } else if rec.char_id@.len() == 0 {
        Some("char_id is required"@)
    } else if opt_range_error("char_level"@, rec.char_level, 1, 60, "1-60"@) is Some {
        opt_range_error("char_level"@, rec.char_level, 1, 60, "1-60"@)
    } else if opt_range_error("char_ascension"@, rec.char_ascension, 0, 6, "0-6"@) is Some {
        opt_range_error("char_ascension"@, rec.char_ascension, 0, 6, "0-6"@)
    } else if opt_range_error("wengine_level"@, rec.wengine_level, 1, 60, "1-60"@) is Some {
        opt_range_error("wengine_level"@, rec.wengine_level, 1, 60, "1-60"@)
    } else {
        opt_range_error("wengine_ascension"@, rec.wengine_ascension, 0, 6, "0-6"@)
    }
}

/// Law: a deployed configuration is accepted exactly when it has a name
/// and a character, its levels (when given) lie in 1..=60 and its
/// ascensions (when given) in 0..=6.
pub proof fn lemma_deployed_config_accepted(rec: DeployedConfigRecord)
    ensures
        deployed_config_error(rec) is None <==> {
            &&& rec.name@.len() > 0
            &&& rec.char_id@.len() > 0
            &&& (rec.char_level matches Some(l) ==> 1 <= l <= 60)
            &&& (rec.char_ascension matches Some(a) ==> 0 <= a <= 6)
            &&& (rec.wengine_level matches Some(l) ==> 1 <= l <= 60)
            &&& (rec.wengine_ascension matches Some(a) ==> 0 <= a <= 6)
        },
{
}

/// Validate a deployed configuration before it is stored.
pub fn validate_deployed_config(rec: &DeployedConfigRecord) -> (r: Result<(), String>)
    ensures
        r is Ok <==> deployed_config_error(*rec) is None,
        r matches Err(m) ==> deployed_config_error(*rec) == Some(m@),
{
    if rec.name.as_str().is_empty() {
        return Err(String::from_str("name is required"));
    }
    if rec.char_id.as_str().is_empty() {
        return Err(String::from_str("char_id is required"));
    }
    if let Some(lvl) = rec.char_level {
        if !(1 <= lvl && lvl <= 60) {
            return Err(out_of_range("char_level", lvl, "1-60"));
        }
    }
    if let Some(asc) = rec.char_ascension {
        if !(0 <= asc && asc <= 6) {
            return Err(out_of_range("char_ascension", asc, "0-6"));
        }
    }
    if let Some(lvl) = rec.wengine_level {
        if !(1 <= lvl && lvl <= 60) {
            return Err(out_of_range("wengine_level", lvl, "1-60"));
        }
    }
    if let Some(asc) = rec.wengine_ascension {
        if !(0 <= asc && asc <= 6) {
            return Err(out_of_range("wengine_ascension", asc, "0-6"));
        }
    }
    Ok(())
}

#[verifier::external_type_specification]
#[verifier::external_body]
pub struct ExSystemTime(SystemTime);

/// Wraps `std::time::SystemTime::now`: the clock's current reading.
/// Nothing is claimed of it, since it depends on the clock.
#[verifier::external_body]
fn clock_now() -> SystemTime {
    SystemTime::now()
}

/// Wraps `SystemTime::duration_since` with the Unix epoch: the time since
/// the epoch, or none when the reading is earlier than the epoch. Nothing
/// is claimed of the value, since the reading comes from the clock.
#[verifier::external_body]
fn since_epoch(t: &SystemTime) -> Option<Duration> {
    match t.duration_since(std::time::UNIX_EPOCH) {
        Ok(d) => Some(d),
        Err(_) => None,
    }
}

/// Wraps `Duration::as_millis`: the whole milliseconds of a duration.
/// `Duration` is opaque here, so nothing is claimed of the number.
#[verifier::external_body]
fn whole_millis(d: &Duration) -> u128 {
    d.as_millis()
}

/// Milliseconds since the Unix epoch on the system clock, zero when the
/// clock reads earlier than the epoch.
fn now_millis() -> u128 {
    match since_epoch(&clock_now()) {
        Some(d) => whole_millis(&d),
        None => 0,
    }
}

/// The configuration identifier of a timestamp: `config_` followed by its
/// decimal digits.
pub fn config_id_from_millis(ts: u128) -> (id: String)
    ensures
        id@ == "config_"@ + decimal_nat(ts as nat),
{
    let mut id = String::from_str("config_");
    push_decimal_nat(&mut id, ts);
    id
}

/// Identifiers produced for new configurations: `config_` and a timestamp.
pub open spec fn is_config_id(id: Seq<char>) -> bool {
    exists|ts: nat| id == "config_"@ + decimal_nat(ts)
}

/// A new configuration identifier: `config_` followed by the current time
/// in milliseconds since the Unix epoch.
pub fn generate_config_id() -> (id: String)
    ensures
        is_config_id(id@),
{
    config_id_from_millis(now_millis())
}


/// A configuration ready to be stored: validated, and given a fresh
/// identifier when it has none (an existing identifier is kept).
pub fn prepare_deployed_config(rec: DeployedConfigRecord) -> (r: Result<DeployedConfigRecord, String>)
    ensures
        r is Ok <==> deployed_config_error(rec) is None,
        r matches Err(m) ==> deployed_config_error(rec) == Some(m@),
        r matches Ok(out) ==> {
            &&& (if rec.config_id@.len() == 0 { is_config_id(out.config_id@) } else { out.config_id == rec.config_id })
            &&& out.name == rec.name
            &&& out.char_id == rec.char_id
            &&& out.char_level == rec.char_level
            &&& out.char_ascension == rec.char_ascension
            &&& out.cinemas == rec.cinemas
            &&& out.potentials == rec.potentials
            &&& out.wengine_id == rec.wengine_id
            &&& out.wengine_level == rec.wengine_level
            &&& out.wengine_ascension == rec.wengine_ascension
            &&& out.disc_configs == rec.disc_configs
            &&& out.created_at == rec.created_at
            &&& out.updated_at == rec.updated_at
        },
{
    validate_deployed_config(&rec)?;
    let mut rec = rec;
    if rec.config_id.as_str().is_empty() {
        rec.config_id = generate_config_id();
    }
    Ok(rec)
}

/// The copy of a configuration: a fresh identifier, ` (Copy)` appended to
/// the name, no timestamps, every other field kept.
pub fn duplicate_deployed_record(rec: DeployedConfigRecord) -> (out: DeployedConfigRecord)
    ensures
        is_config_id(out.config_id@),
        out.name@ == rec.name@ + " (Copy)"@,
        out.created_at is None,
        out.updated_at is None,
        out.char_id == rec.char_id,
        out.char_level == rec.char_level,
        out.char_ascension == rec.char_ascension,
        out.cinemas == rec.cinemas,
        out.potentials == rec.potentials,
        out.wengine_id == rec.wengine_id,
        out.wengine_level == rec.wengine_level,
        out.wengine_ascension == rec.wengine_ascension,
        out.disc_configs == rec.disc_configs,
{
    let mut out = rec;
    out.config_id = generate_config_id();
    out.name.append(" (Copy)");
    out.created_at = None;
    out.updated_at = None;
    out
}

/// `"<field> must be >= 0, got <value>"`.
pub open spec fn negative_msg(field: Seq<char>, value: int) -> Seq<char> {
    field + " must be >= 0, got "@ + decimal_int(value)
}

fn negative_value(field: &str, value: i32) -> (m: String)
    ensures
        m@ == negative_msg(field@, value as int),
{
    let mut m = String::from_str(field);
    m.append(" must be >= 0, got ");
    push_decimal_int(&mut m, value as i64);
    assert(m@ =~= negative_msg(field@, value as int));
    m
}

/// The first error of the checked fields of a skill record.
pub open spec fn skill_fields_error(char_id: Seq<char>, action_id: Seq<char>, action_type: Seq<char>, cooldown_ticks: i32, animation_frames: i32) -> Option<Seq<char>> {
    if char_id.len() == 0 {
        Some("char_id is required"@)
    } else if action_id.len() == 0 {
        Some("action_id is required"@)
    } else if action_type.len() == 0 {
        Some("action_type is required"@)
    } else if cooldown_ticks < 0 {
        Some(negative_msg("cooldown_ticks"@, cooldown_ticks as int))
    } else if animation_frames < 0 {
        Some(negative_msg("animation_frames"@, animation_frames as int))
    } else {
        None
    }
}

/// Validate the checked fields of a skill record: the three identifiers are
/// required and the cooldown and animation length may not be negative.
pub fn validate_skill_fields(char_id: &str, action_id: &str, action_type: &str, cooldown_ticks: i32, animation_frames: i32) -> (r: Result<(), String>)
    ensures
        r is Ok <==> skill_fields_error(char_id@, action_id@, action_type@, cooldown_ticks, animation_frames) is None,
        r matches Err(m) ==> skill_fields_error(char_id@, action_id@, action_type@, cooldown_ticks, animation_frames) == Some(m@),
{
    if char_id.is_empty() {
        return Err(String::from_str("char_id is required"));
    }
    if action_id.is_empty() {
        return Err(String::from_str("action_id is required"));
    }
    if action_type.is_empty() {
        return Err(String::from_str("action_type is required"));
    }
    if cooldown_ticks < 0 {
        return Err(negative_value("cooldown_ticks", cooldown_ticks));
    }
    if animation_frames < 0 {
        return Err(negative_value("animation_frames", animation_frames));
    }
    Ok(())
}

/// The first error of the checked fields of a drive disc record.
pub open spec fn drive_disc_fields_error(id: Seq<char>, slot: i32, set_id: Seq<char>) -> Option<Seq<char>> {
    if id.len() == 0 {
        Some("id is required"@)
    } else if !(1 <= slot <= 6) {
        Some("slot must be 1-6, got "@ + decimal_int(slot as int))
    } else if set_id.len() == 0 {
        Some("set_id is required"@)
    } else {
        None
    }
}

/// Validate the checked fields of a drive disc: identifier, slot (1-6) and set.
pub fn validate_drive_disc_fields(id: &str, slot: i32, set_id: &str) -> (r: Result<(), String>)
    ensures
        r is Ok <==> drive_disc_fields_error(id@, slot, set_id@) is None,
        r matches Err(m) ==> drive_disc_fields_error(id@, slot, set_id@) == Some(m@),
{
    if id.is_empty() {
        return Err(String::from_str("id is required"));
    }
    if !(1 <= slot && slot <= 6) {
        let mut m = String::from_str("slot must be 1-6, got ");
        push_decimal_int(&mut m, slot as i64);
        assert(m@ =~= "slot must be 1-6, got "@ + decimal_int(slot as int));
        return Err(m);
    }
    if set_id.is_empty() {
        return Err(String::from_str("set_id is required"));
    }
    Ok(())
}

/// The first error of the identifier and name of a record, where the
/// identifier field is called `id_field`.
pub open spec fn id_name_error(id_field: Seq<char>, id: Seq<char>, name: Seq<char>) -> Option<Seq<char>> {
    if id.len() == 0 {
        Some(id_field + " is required"@)
    } else if name.len() == 0 {
        Some("name is required"@)
    } else {
        None
    }
}

/// Validate that a record has an identifier (field `id_field`) and a name;
/// W-Engines and disc sets are checked this way.
pub fn validate_id_and_name(id_field: &str, id: &str, name: &str) -> (r: Result<(), String>)
    ensures
        r is Ok <==> id_name_error(id_field@, id@, name@) is None,
        r matches Err(m) ==> id_name_error(id_field@, id@, name@) == Some(m@),
{
    if id.is_empty() {
        let mut m = String::from_str(id_field);
        m.append(" is required");
        assert(m@ =~= id_field@ + " is required"@);
        return Err(m);
    }
    if name.is_empty() {
        return Err(String::from_str("name is required"));
    }
    Ok(())
}

/// Law: a character identifier is accepted exactly when it is non-empty
/// and every character is a lowercase ASCII letter, a digit or `_`.
pub proof fn lemma_char_id_accepted(id: Seq<char>)
    ensures
        char_id_error(id) is None <==> (id.len() > 0 && forall|i: int| 0 <= i < id.len()
            ==> (('a' <= #[trigger] id[i] && id[i] <= 'z') || ('0' <= id[i] && id[i] <= '9') || id[i] == '_')),
{
}

/// Law: the identity fields of a character are accepted exactly when the
/// identifier is acceptable, the name non-empty, the level in 1..=60 and
/// the ascension in 0..=6.
pub proof fn lemma_character_basics_accepted(char_id: Seq<char>, name: Seq<char>, level: i32, ascension: i32)
    ensures
        character_basics_error(char_id, name, level, ascension) is None <==> {
            &&& char_id_error(char_id) is None
            &&& name.len() > 0
            &&& 1 <= level <= 60
            &&& 0 <= ascension <= 6
        },
{
}

/// Law: the checked fields of a skill are accepted exactly when the three
/// identifiers are non-empty and the cooldown and animation length are not
/// negative.
pub proof fn lemma_skill_fields_accepted(char_id: Seq<char>, action_id: Seq<char>, action_type: Seq<char>, cooldown_ticks: i32, animation_frames: i32)
    ensures
        skill_fields_error(char_id, action_id, action_type, cooldown_ticks, animation_frames) is None <==> {
            &&& char_id.len() > 0
            &&& action_id.len() > 0
            &&& action_type.len() > 0
            &&& cooldown_ticks >= 0
            &&& animation_frames >= 0
        },
{
}

/// Law: the checked fields of a drive disc are accepted exactly when the
/// identifier and set are non-empty and the slot is in 1..=6.
pub proof fn lemma_drive_disc_fields_accepted(id: Seq<char>, slot: i32, set_id: Seq<char>)
    ensures
        drive_disc_fields_error(id, slot, set_id) is None <==> (id.len() > 0 && 1 <= slot <= 6 && set_id.len() > 0),
{
}

/// Law: a record with an identifier and a name is accepted exactly when
/// both are non-empty.
pub proof fn lemma_id_and_name_accepted(id_field: Seq<char>, id: Seq<char>, name: Seq<char>)
    ensures
        id_name_error(id_field, id, name) is None <==> (id.len() > 0 && name.len() > 0),
{
}

/// A disc set record matching the `disc_sets` table columns.
#[derive(Debug, Clone)]
pub struct DiscSetRecord {
    pub set_id: String,
    pub name: String,
    pub two_piece_description: Option<String>,
    pub two_piece_buff_id: Option<String>,
    pub four_piece_description: Option<String>,
    pub four_piece_buff_id: Option<String>,
}

/// Record counts for each table.
#[derive(Debug, Clone, Copy, PartialEq, Eq, Structural)]
pub struct DataSummary {
    pub characters: i64,
    pub skills: i64,
    pub w_engines: i64,
    pub drive_discs: i64,
    pub disc_sets: i64,
    pub enemies: i64,
    pub apl: i64,
}

/// A single search result row.
#[derive(Debug, Clone)]
pub struct SearchResult {
    pub data_type: String,
    pub id: String,
    pub name: String,
}

/// A table that a search looks into.
#[derive(Debug, Clone, Copy, PartialEq, Eq, Structural)]
pub enum SearchTarget {
    Characters,
    Skills,
    Enemies,
    WEngines,
    DiscSets,
}

/// The tables searched for a data type, in the order their results are
/// listed; `None` for an unknown data type.
pub open spec fn targets_for(data_type: Seq<char>) -> Option<Seq<SearchTarget>> {
    if data_type == "characters"@ {
        Some(seq![SearchTarget::Characters])
    } else if data_type == "skills"@ {
        Some(seq![SearchTarget::Skills])
    } else if data_type == "enemies"@ {
        Some(seq![SearchTarget::Enemies])
    } else if data_type == "w_engines"@ {
        Some(seq![SearchTarget::WEngines])
    } else if data_type == "disc_sets"@ {
        Some(seq![SearchTarget::DiscSets])
    } else if data_type == "all"@ {
        Some(seq![SearchTarget::Characters, SearchTarget::Skills, SearchTarget::Enemies, SearchTarget::WEngines, SearchTarget::DiscSets])
    } else {
        None
    }
}

/// The message for an unknown data type.
pub open spec fn unknown_data_type_msg(data_type: Seq<char>) -> Seq<char> {
    "Unknown data_type '"@ + data_type + "'. Must be one of: characters, skills, enemies, w_engines, disc_sets, all"@
}

/// The tables to search for `data_type`, or the error for an unknown type.
pub fn search_targets(data_type: &str) -> (r: Result<Vec<SearchTarget>, String>)
    ensures
        r matches Ok(v) ==> targets_for(data_type@) == Some(v@),
        r matches Err(m) ==> targets_for(data_type@) is None && m@ == unknown_data_type_msg(data_type@),
        r is Ok <==> targets_for(data_type@) is Some,
{
    let d = String::from_str(data_type);
    let mut v: Vec<SearchTarget> = Vec::new();
    if d == String::from_str("characters") {
        v.push(SearchTarget::Characters);
    } else if d == String::from_str("skills") {
        v.push(SearchTarget::Skills);
    } else if d == String::from_str("enemies") {
        v.push(SearchTarget::Enemies);
    } else if d == String::from_str("w_engines") {
        v.push(SearchTarget::WEngines);
    } else if d == String::from_str("disc_sets") {
        v.push(SearchTarget::DiscSets);
    } else if d == String::from_str("all") {
        v.push(SearchTarget::Characters);
        v.push(SearchTarget::Skills);
        v.push(SearchTarget::Enemies);
        v.push(SearchTarget::WEngines);
        v.push(SearchTarget::DiscSets);
    } else {
        let mut m = String::from_str("Unknown data_type '");
        m.append(data_type);
        m.append("'. Must be one of: characters, skills, enemies, w_engines, disc_sets, all");
        return Err(m);
    }
    assert(targets_for(data_type@) == Some(v@));
    Ok(v)
}

/// The `LIKE` pattern of a search: the query between two `%`.
pub fn search_pattern(query: &str) -> (p: String)
    ensures
        p@ == "%"@ + query@ + "%"@,
{
    let mut p = String::from_str("%");
    p.append(query);
    p.append("%");
    p
}

/// Result of importing one data type.
#[derive(Debug, Clone)]
pub struct ImportResult {
    pub success: usize,
    pub errors: Vec<String>,
}

impl ImportResult {
    /// No success and no error yet.
    pub fn new() -> (r: Self)
        ensures
            r.success == 0,
            r.errors@.len() == 0,
    {
        ImportResult { success: 0, errors: Vec::new() }
    }

    /// Count one more success.
    pub fn add_success(&mut self)
        requires
            old(self).success < usize::MAX,
        ensures
            final(self).success == old(self).success + 1,
            final(self).errors == old(self).errors,
    {
        self.success = self.success + 1;
    }

    /// Record one more error message.
    pub fn add_error(&mut self, msg: String)
        ensures
            final(self).success == old(self).success,
            final(self).errors@ == old(self).errors@.push(msg),
    {
        self.errors.push(msg);
    }

    /// Number of items handled: successes and errors together.
    pub fn total(&self) -> (n: usize)
        requires
            self.success + self.errors@.len() <= usize::MAX,
        ensures
            n == self.success + self.errors@.len(),
    {
        self.success + self.errors.len()
    }
}

/// One call on an import tally: `None` for `add_success`, `Some(msg)` for
/// `add_error(msg)`, as those functions' contracts state it.
pub open spec fn import_step(before: ImportResult, op: Option<String>, after: ImportResult) -> bool {
    match op {
        None => after.success == before.success + 1 && after.errors@ == before.errors@,
        Some(m) => after.success == before.success && after.errors@ == before.errors@.push(m),
    }
}

/// How many of a series of calls are successes.
pub open spec fn success_calls(ops: Seq<Option<String>>) -> nat
    decreases ops.len(),
{
    if ops.len() == 0 {
        0
    } else {
        success_calls(ops.drop_last()) + if ops.last() is None { 1nat } else { 0nat }
    }
}

/// The messages of the error calls of a series, in order.
pub open spec fn error_calls(ops: Seq<Option<String>>) -> Seq<String>
    decreases ops.len(),
{
    if ops.len() == 0 {
        Seq::empty()
    } else {
        match ops.last() {
            Some(m) => error_calls(ops.drop_last()).push(m),
            None => error_calls(ops.drop_last()),
        }
    }
}

/// Law: after a fresh tally and any series of `add_success` and
/// `add_error` calls in any order, the tally holds one success per
/// success call, the error messages in the order they came, and a total of
/// one per call.
pub proof fn lemma_import_tally(states: Seq<ImportResult>, ops: Seq<Option<String>>)
    requires
        states.len() == ops.len() + 1,
        states[0].success == 0,
        states[0].errors@.len() == 0,
        forall|i: int| #![trigger ops[i]] 0 <= i < ops.len() ==> import_step(states[i], ops[i], states[i + 1]),
    ensures
        states.last().success == success_calls(ops),
        states.last().errors@ == error_calls(ops),
        states.last().success + states.last().errors@.len() == ops.len(),
    decreases ops.len(),
{
    if ops.len() > 0 {
        let n = ops.len() - 1;
        let prev_states = states.take(n + 1);
        let prev_ops = ops.drop_last();
        assert forall|i: int| #![trigger prev_ops[i]] 0 <= i < prev_ops.len() implies import_step(prev_states[i], prev_ops[i], prev_states[i + 1]) by {
            assert(prev_ops[i] == ops[i]);
        }
        lemma_import_tally(prev_states, prev_ops);
        assert(prev_states.last() == states[n]);
        assert(import_step(states[n], ops[n], states[n + 1]));
    } else {
        assert(states[0].errors@ =~= Seq::<String>::empty());
    }
}

} // verus!
