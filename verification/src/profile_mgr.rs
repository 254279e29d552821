//! Putting the profile set together: built-in profiles first, user profiles
//! replacing built-ins with the same ID, a cap on their number, the checks on
//! a profile file's bytes, and the status line shown after loading.
//! Reading directories and files, and parsing TOML into definitions, are the
//! caller's part.
use vstd::prelude::*;
use vstd::utf8::encode_utf8;
use crate::model::FormatProfile;
use crate::profile::{ProfileDefinition, ProfileError, compiled_from, regex_field_error, validate_and_compile};
use crate::scan::find_profile;
use crate::text::{chars_of, decimal, file_name, file_name_spec, push_decimal, push_str};

verus! {

/// Most profiles kept.
pub const MAX_PROFILES: usize = 100;

/// Largest profile file read, in bytes.
pub const MAX_PROFILE_FILE_SIZE: u64 = 1048576;

/// A definition passes `validate_and_compile`.
pub open spec fn definition_ok(def: &ProfileDefinition) -> bool {
    &&& def.profile.id@.len() > 0
    &&& def.profile.name@.len() > 0
    &&& def.detection.content_match@.len() > 0
    &&& def.parsing.line_pattern@.len() > 0
    &&& def.parsing.timestamp_format@.len() > 0
    &&& regex_field_error(def.detection.content_match@) is None
    &&& regex_field_error(def.parsing.line_pattern@) is None
}

/// The definitions among the items that parsed and pass validation, in
/// order.
pub open spec fn good_defs(items: Seq<Result<ProfileDefinition, ProfileError>>) -> Seq<ProfileDefinition>
    decreases items.len(),
{
    if items.len() == 0 {
        Seq::empty()
    } else {
        let r = good_defs(items.drop_last());
        match items.last() {
            Ok(d) => if definition_ok(&d) { r.push(d) } else { r },
            Err(_) => r,
        }
    }
}

/// Compile each parsed definition (a parse failure is kept as an error):
/// the profiles that compile, in order, and one error per item that did
/// not.
pub fn compile_all(items: Vec<Result<ProfileDefinition, ProfileError>>, paths: &Vec<String>, is_builtin: bool)
    -> (r: (Vec<FormatProfile>, Vec<ProfileError>))
    requires
        paths@.len() == items@.len(),
    ensures
        r.0@.len() == good_defs(items@).len(),
        forall|j: int| 0 <= j < r.0@.len() ==> compiled_from(&(#[trigger] r.0@[j]), &good_defs(items@)[j], is_builtin),
        r.0@.len() + r.1@.len() == items@.len(),
{
    let ghost all = items@;
    let mut items = items;
    let mut profiles: Vec<FormatProfile> = Vec::new();
    let mut errors: Vec<ProfileError> = Vec::new();
    let mut i: usize = 0;
    let n0 = items.len();
    assert(all.len() == n0);
    assert(all.skip(0) =~= all);
    while items.len() > 0
        invariant
            i + items@.len() == all.len(),
            all.len() <= usize::MAX,
            items@ == all.skip(i as int),
            paths@.len() == all.len(),
            profiles@.len() == good_defs(all.take(i as int)).len(),
            forall|j: int| 0 <= j < profiles@.len() ==> compiled_from(&(#[trigger] profiles@[j]), &good_defs(all.take(i as int))[j], is_builtin),
            profiles@.len() + errors@.len() == i,
        decreases items@.len(),
    {
        let ghost before = items@;
        let item = items.remove(0);
        assert(item == all[i as int]);
        assert(items@ =~= all.skip(i + 1));
        assert(all.take(i + 1).drop_last() =~= all.take(i as int));
        let ghost g0 = good_defs(all.take(i as int));
        match item {
            Ok(def) => {
                let ghost d = def;
                match validate_and_compile(def, paths[i].as_str(), is_builtin) {
                    Ok(p) => {
                        profiles.push(p);
                        assert(good_defs(all.take(i + 1)) == g0.push(d));
                        assert forall|j: int| 0 <= j < profiles@.len() implies compiled_from(&(#[trigger] profiles@[j]), &good_defs(all.take(i + 1))[j], is_builtin) by {
                            if j < g0.len() {
                                assert(good_defs(all.take(i + 1))[j] == g0[j]);
                            }
                        }
                    },
                    Err(e) => {
                        errors.push(e);
                        assert(good_defs(all.take(i + 1)) == g0);
                    },
                }
            },
            Err(e) => {
                errors.push(e);
            },
        }
        i += 1;
    }
    assert(all.take(all.len() as int) =~= all);
    (profiles, errors)
}

/// User profiles laid over the base ones, in order: one with the ID of a
/// profile already present replaces it there, any other is added at the end.
pub open spec fn merged(base: Seq<FormatProfile>, user: Seq<FormatProfile>) -> Seq<FormatProfile>
    decreases user.len(),
{
    if user.len() == 0 {
        base
    } else {
        let m = merged(base, user.drop_last());
        let u = user.last();
        match find_profile(m, u.id@, m.len()) {
            Some(j) => m.update(j, u),
            None => m.push(u),
        }
    }
}

fn position_of(ps: &Vec<FormatProfile>, id: &str) -> (r: Option<usize>)
    ensures
        match r {
            Some(j) => find_profile(ps@, id@, ps@.len()) == Some(j as int) && j < ps.len(),
            None => find_profile(ps@, id@, ps@.len()) is None,
        },
{
    let mut k: usize = 0;
    while k < ps.len()
        invariant
            k <= ps.len(),
            find_profile(ps@, id@, k as nat) is None,
        decreases ps.len() - k,
    {
        if crate::text::str_eq(ps[k].id.as_str(), id) {
            assert(find_profile(ps@, id@, (k + 1) as nat) == Some(k as int));
            proof { lemma_find_stable(ps@, id@, (k + 1) as nat); }
            return Some(k);
        }
        k += 1;
    }
    None
}

proof fn lemma_find_stable(ps: Seq<FormatProfile>, id: Seq<char>, k: nat)
    requires
        k <= ps.len(),
        find_profile(ps, id, k) is Some,
    ensures
        find_profile(ps, id, ps.len()) == find_profile(ps, id, k),
    decreases ps.len() - k,
{
    if k < ps.len() {
        lemma_find_stable(ps, id, k + 1);
    }
}

/// Lay the user profiles over the base ones (see `merged`).
pub fn merge_profiles(base: Vec<FormatProfile>, user: Vec<FormatProfile>) -> (r: Vec<FormatProfile>)
    ensures
        r@ == merged(base@, user@),
{
    let ghost all = user@;
    let mut user = user;
    let mut profiles = base;
    let ghost b = profiles@;
    let mut i: usize = 0;
    let n0 = user.len();
    assert(all.len() == n0);
    assert(all.skip(0) =~= all);
    assert(all.take(0) =~= Seq::<FormatProfile>::empty());
    while user.len() > 0
        invariant
            i + user@.len() == all.len(),
            all.len() <= usize::MAX,
            user@ == all.skip(i as int),
            profiles@ == merged(b, all.take(i as int)),
        decreases user@.len(),
    {
        let u = user.remove(0);
        assert(u == all[i as int]);
        assert(user@ =~= all.skip(i + 1));
        assert(all.take(i + 1).drop_last() =~= all.take(i as int));
        assert(all.take(i + 1).last() == u);
        match position_of(&profiles, u.id.as_str()) {
            Some(j) => {
                profiles.set(j, u);
            },
            None => {
                profiles.push(u);
            },
        }
        i += 1;
    }
    assert(all.take(all.len() as int) =~= all);
    profiles
}

/// Keep at most `MAX_PROFILES` profiles; when there are more, the rest are
/// dropped and a `TooManyProfiles` error (with the count before dropping) is
/// added.
pub fn cap_profiles(profiles: &mut Vec<FormatProfile>, errors: &mut Vec<ProfileError>)
    ensures
        old(profiles)@.len() <= MAX_PROFILES ==> final(profiles)@ == old(profiles)@ && final(errors)@ == old(errors)@,
        old(profiles)@.len() > MAX_PROFILES ==> final(profiles)@ == old(profiles)@.take(MAX_PROFILES as int)
            && final(errors)@ == old(errors)@.push(ProfileError::TooManyProfiles { count: old(profiles)@.len() as usize, max: MAX_PROFILES }),
{
    if profiles.len() > MAX_PROFILES {
        let count = profiles.len();
        errors.push(ProfileError::TooManyProfiles { count, max: MAX_PROFILES });
        profiles.truncate(MAX_PROFILES);
    }
}

/// The extension of a file name: what follows its last `.`, unless that
/// `.` starts the name.
pub open spec fn extension_spec(name: Seq<char>) -> Option<Seq<char>>
    decreases name.len(),
{
    if name.len() <= 1 {
        None
    } else if name.last() == '.' {
        Some(Seq::empty())
    } else {
        match extension_spec(name.drop_last()) {
            Some(e) => Some(e.push(name.last())),
            None => None,
        }
    }
}

/// Whether a path names a `.toml` file.
pub open spec fn is_toml_spec(path: Seq<char>) -> bool {
    match file_name_spec(path) {
        Some(n) => extension_spec(n) == Some("toml"@),
        None => false,
    }
}

pub(crate) fn extension_exec(name: &str) -> (r: Option<String>)
    ensures
        crate::pattern::opt_view(r) == extension_spec(name@),
{
    let v = chars_of(name);
    let mut k: usize = v.len();
    if k <= 1 {
        return None;
    }
    proof {
        assert(v@.take(k as int) =~= v@);
        assert(v@.skip(k as int) =~= Seq::<char>::empty());
        match extension_spec(v@) {
            Some(e) => { assert(e + Seq::<char>::empty() =~= e); },
            None => {},
        }
    }
    while k > 1 && v[k - 1] != '.'
        invariant
            1 <= k <= v.len(),
            v.len() >= 2,
            match extension_spec(v@.take(k as int)) {
                Some(e) => extension_spec(v@) == Some(e + v@.skip(k as int)),
                None => extension_spec(v@) is None,
            },
        decreases k,
    {
        let ghost t = v@.take(k as int);
        assert(t.drop_last() =~= v@.take(k - 1));
        assert(t.last() == v@[k - 1]);
        proof {
            if k - 1 >= 2 || (k - 1 == 1) {
                match extension_spec(v@.take(k - 1)) {
                    Some(e) => {
                        assert(e.push(t.last()) + v@.skip(k as int) =~= e + v@.skip(k - 1));
                    },
                    None => {},
                }
            }
        }
        k -= 1;
    }
    if k <= 1 {
        assert(v@.take(k as int).len() <= 1);
        return None;
    }
    assert(extension_spec(v@.take(k as int)) == Some(Seq::<char>::empty()));
    assert(Seq::<char>::empty() + v@.skip(k as int) =~= v@.subrange(k as int, v@.len() as int));
    Some(crate::text::string_of_range(&v, k, v.len()))
}

/// Whether a path names a `.toml` file (only those are read as profiles).
pub fn is_toml_file(path: &str) -> (r: bool)
    ensures
        r == is_toml_spec(path@),
{
    match file_name(path) {
        None => false,
        Some(n) => match extension_exec(n.as_str()) {
            Some(e) => {
                proof { reveal_strlit("toml"); }
                crate::text::str_eq(e.as_str(), "toml")
            },
            None => false,
        },
    }
}

/// `String::from_utf8`: the text when the bytes are valid UTF-8.
#[verifier::external_body]
fn decode_utf8(bytes: Vec<u8>) -> (r: Option<String>)
    ensures
        r matches Some(s) ==> encode_utf8(s@) == bytes@,
        r is None ==> forall|s: Seq<char>| encode_utf8(s) != bytes@,
{
    String::from_utf8(bytes).ok()
}

/// Reason given for a profile file that is not valid UTF-8.
pub open spec fn not_utf8_reason() -> Seq<char> {
    "profile is not valid UTF-8"@
}

/// Check the bytes read from a profile file (at most one more than the
/// limit is read): more than the limit is `FileTooLarge`; bytes that are not
/// UTF-8 are an I/O error; otherwise the text.
pub fn profile_text(path: &str, bytes: Vec<u8>, limit: u64) -> (r: Result<String, ProfileError>)
    ensures
        bytes@.len() > limit ==> (r matches Err(ProfileError::FileTooLarge { path: p, size, max_size })
            && p@ == path@ && size == bytes@.len() && max_size == limit),
        bytes@.len() <= limit ==> match r {
            Ok(s) => encode_utf8(s@) == bytes@,
            Err(e) => (forall|s: Seq<char>| encode_utf8(s) != bytes@)
                && (e matches ProfileError::Io { path: p, message } && p@ == path@ && message@ == not_utf8_reason()),
        },
{
    if bytes.len() as u64 > limit {
        return Err(ProfileError::FileTooLarge { path: path.to_string(), size: bytes.len() as u64, max_size: limit });
    }
    match decode_utf8(bytes) {
        Some(s) => Ok(s),
        None => Err(ProfileError::Io { path: path.to_string(), message: "profile is not valid UTF-8".to_string() }),
    }
}


/// Display text of a profile error.
pub open spec fn error_text(e: ProfileError) -> Seq<char> {
    match e {
        ProfileError::TomlParse { path, message } => "Failed to parse profile '"@ + path@ + "': "@ + message@,
        ProfileError::MissingField { profile_id, field } => "Profile '"@ + profile_id@ + "': missing required field '"@ + field@ + "'"@,
        ProfileError::RegexTooLong { profile_id, field, length, max_length } => "Profile '"@ + profile_id@ + "': regex in '"@
            + field@ + "' is "@ + decimal(length as nat) + " bytes long (max "@ + decimal(max_length as nat) + ")"@,
        ProfileError::InvalidRegex { profile_id, field, message, .. } => "Profile '"@ + profile_id@ + "': invalid regex in '"@
            + field@ + "': "@ + message@,
        ProfileError::Io { path, message } => "Cannot read profile '"@ + path@ + "': "@ + message@,
        ProfileError::FileTooLarge { path, size, max_size } => "Profile file '"@ + path@ + "' is "@ + decimal(size as nat)
            + " bytes (max "@ + decimal(max_size as nat) + ")"@,
        ProfileError::TooManyProfiles { count, max } => "Too many profiles ("@ + decimal(count as nat) + "); only the first "@
            + decimal(max as nat) + " are used"@,
    }
}

impl ProfileError {
    /// The display text of the error.
    pub fn to_text(&self) -> (r: String)
        ensures
            r@ == error_text(*self),
    {
        let mut m = String::new();
        proof {
            reveal_strlit("Failed to parse profile '");
            reveal_strlit("': ");
            reveal_strlit("Profile '");
            reveal_strlit("': missing required field '");
            reveal_strlit("'");
            reveal_strlit("': regex in '");
            reveal_strlit("' is ");
            reveal_strlit(" bytes long (max ");
            reveal_strlit(")");
            reveal_strlit("': invalid regex in '");
            reveal_strlit("Cannot read profile '");
            reveal_strlit("Profile file '");
            reveal_strlit(" bytes (max ");
            reveal_strlit("Too many profiles (");
            reveal_strlit("); only the first ");
            reveal_strlit(" are used");
        }
        match self {
            ProfileError::TomlParse { path, message } => {
                push_str(&mut m, "Failed to parse profile '");
                push_str(&mut m, path.as_str());
                push_str(&mut m, "': ");
                push_str(&mut m, message.as_str());
            },
            ProfileError::MissingField { profile_id, field } => {
                push_str(&mut m, "Profile '");
                push_str(&mut m, profile_id.as_str());
                push_str(&mut m, "': missing required field '");
                push_str(&mut m, field);
                push_str(&mut m, "'");
            },
            ProfileError::RegexTooLong { profile_id, field, length, max_length } => {
                push_str(&mut m, "Profile '");
                push_str(&mut m, profile_id.as_str());
                push_str(&mut m, "': regex in '");
                push_str(&mut m, field);
                push_str(&mut m, "' is ");
                push_decimal(&mut m, *length as u64);
                push_str(&mut m, " bytes long (max ");
                push_decimal(&mut m, *max_length as u64);
                push_str(&mut m, ")");
            },
            ProfileError::InvalidRegex { profile_id, field, message, .. } => {
                push_str(&mut m, "Profile '");
                push_str(&mut m, profile_id.as_str());
                push_str(&mut m, "': invalid regex in '");
                push_str(&mut m, field);
                push_str(&mut m, "': ");
                push_str(&mut m, message.as_str());
            },
            ProfileError::Io { path, message } => {
                push_str(&mut m, "Cannot read profile '");
                push_str(&mut m, path.as_str());
                push_str(&mut m, "': ");
                push_str(&mut m, message.as_str());
            },
            ProfileError::FileTooLarge { path, size, max_size } => {
                push_str(&mut m, "Profile file '");
                push_str(&mut m, path.as_str());
                push_str(&mut m, "' is ");
                push_decimal(&mut m, *size);
                push_str(&mut m, " bytes (max ");
                push_decimal(&mut m, *max_size);
                push_str(&mut m, ")");
            },
            ProfileError::TooManyProfiles { count, max } => {
                push_str(&mut m, "Too many profiles (");
                push_decimal(&mut m, *count as u64);
                push_str(&mut m, "); only the first ");
                push_decimal(&mut m, *max as u64);
                push_str(&mut m, " are used");
            },
        }
        m
    }
}

/// Number of profiles that are not built in.
pub open spec fn count_external(ps: Seq<FormatProfile>) -> nat
    decreases ps.len(),
{
    if ps.len() == 0 { 0 } else { count_external(ps.drop_last()) + if ps.last().is_builtin { 0nat } else { 1nat } }
}

/// The error texts, one per line.
pub open spec fn error_lines(es: Seq<ProfileError>) -> Seq<char>
    decreases es.len(),
{
    if es.len() == 0 {
        Seq::empty()
    } else if es.len() == 1 {
        error_text(es[0])
    } else {
        error_lines(es.drop_last()) + seq!['\n'] + error_text(es.last())
    }
}

/// The status line after loading profiles: the total and the number of
/// external profiles, and when there were problems their count followed by
/// one line per problem.
pub open spec fn load_status_spec(ps: Seq<FormatProfile>, es: Seq<ProfileError>) -> Seq<char> {
    let counts = decimal(ps.len()) + " total ("@ + decimal(count_external(ps)) + " external)."@;
    if es.len() == 0 {
        "Profiles loaded - "@ + counts
    } else {
        "Profiles loaded with "@ + decimal(es.len()) + " warning(s) - "@ + counts + seq!['\n'] + error_lines(es)
    }
}

/// Summarise a profile load.
pub fn profile_load_status(profiles: &Vec<FormatProfile>, errors: &Vec<ProfileError>) -> (r: String)
    ensures
        r@ == load_status_spec(profiles@, errors@),
{
    let mut external: usize = 0;
    let mut i: usize = 0;
    while i < profiles.len()
        invariant
            i <= profiles.len(),
            external == count_external(profiles@.take(i as int)),
            external <= i,
        decreases profiles.len() - i,
    {
        assert(profiles@.take(i + 1).drop_last() =~= profiles@.take(i as int));
        if !profiles[i].is_builtin {
            external += 1;
        }
        i += 1;
    }
    assert(profiles@.take(profiles@.len() as int) =~= profiles@);
    let mut m = String::new();
    proof {
        reveal_strlit("Profiles loaded - ");
        reveal_strlit("Profiles loaded with ");
        reveal_strlit(" warning(s) - ");
        reveal_strlit(" total (");
        reveal_strlit(" external).");
    }
    if errors.len() == 0 {
        push_str(&mut m, "Profiles loaded - ");
    } else {
        push_str(&mut m, "Profiles loaded with ");
        push_decimal(&mut m, errors.len() as u64);
        push_str(&mut m, " warning(s) - ");
    }
    push_decimal(&mut m, profiles.len() as u64);
    push_str(&mut m, " total (");
    push_decimal(&mut m, external as u64);
    push_str(&mut m, " external).");
    if errors.len() > 0 {
        m.push('\n');
        let ghost head = m@;
        let mut k: usize = 0;
        while k < errors.len()
            invariant
                k <= errors.len(),
                m@ == head + error_lines(errors@.take(k as int)),
            decreases errors.len() - k,
        {
            if k > 0 {
                m.push('\n');
            }
            let t = errors[k].to_text();
            push_str(&mut m, t.as_str());
            assert(errors@.take(k + 1).drop_last() =~= errors@.take(k as int));
            if k == 0 {
                assert(m@ =~= head + error_lines(errors@.take(1)));
            } else {
                assert(m@ =~= head + error_lines(errors@.take(k + 1)));
            }
            k += 1;
        }
        assert(errors@.take(errors@.len() as int) =~= errors@);
    }
    m
}


/// No two profiles share an ID.
pub open spec fn ids_distinct(ps: Seq<FormatProfile>) -> bool {
    forall|i: int, j: int| 0 <= i < j < ps.len() ==> (#[trigger] ps[i]).id@ != (#[trigger] ps[j]).id@
}

/// Some profile has this ID.
pub open spec fn has_id(ps: Seq<FormatProfile>, id: Seq<char>) -> bool {
    exists|i: int| 0 <= i < ps.len() && (#[trigger] ps[i]).id@ == id
}

proof fn lemma_find_profile(ps: Seq<FormatProfile>, id: Seq<char>, k: nat)
    requires
        k <= ps.len(),
    ensures
        match find_profile(ps, id, k) {
            Some(j) => 0 <= j < k && ps[j].id@ == id,
            None => forall|i: int| 0 <= i < k ==> (#[trigger] ps[i]).id@ != id,
        },
    decreases k,
{
    if k > 0 {
        lemma_find_profile(ps, id, (k - 1) as nat);
    }
}

/// Laying user profiles over profiles with distinct IDs keeps the IDs
/// distinct, and afterwards every ID of the base or of a user profile is
/// present, the last user profile with an ID being the one kept for it.
pub proof fn law_merge_overrides_by_id(base: Seq<FormatProfile>, user: Seq<FormatProfile>)
    requires
        ids_distinct(base),
    ensures
        ids_distinct(merged(base, user)),
        forall|i: int| 0 <= i < base.len() ==> has_id(merged(base, user), (#[trigger] base[i]).id@),
        forall|i: int| 0 <= i < user.len() ==> has_id(merged(base, user), (#[trigger] user[i]).id@),
        user.len() > 0 ==> merged(base, user).contains(user.last()),
    decreases user.len(),
{
    if user.len() > 0 {
        let d = user.drop_last();
        law_merge_overrides_by_id(base, d);
        let m = merged(base, d);
        let u = user.last();
        let r = merged(base, user);
        lemma_find_profile(m, u.id@, m.len());
        match find_profile(m, u.id@, m.len()) {
            Some(j) => {
                assert(r == m.update(j, u));
                assert(r[j] == u);
                assert forall|a: int, b: int| 0 <= a < b < r.len() implies (#[trigger] r[a]).id@ != (#[trigger] r[b]).id@ by {
                    assert(m[a].id@ != m[b].id@);
                }
                assert forall|i: int| 0 <= i < base.len() implies has_id(r, (#[trigger] base[i]).id@) by {
                    assert(has_id(m, base[i].id@));
                    let k = choose|k: int| 0 <= k < m.len() && (#[trigger] m[k]).id@ == base[i].id@;
                    if k == j {
                        assert(r[j].id@ == base[i].id@);
                    } else {
                        assert(r[k] == m[k]);
                    }
                }
                assert forall|i: int| 0 <= i < user.len() implies has_id(r, (#[trigger] user[i]).id@) by {
                    if i < d.len() {
                        assert(d[i] == user[i]);
                        assert(has_id(m, d[i].id@));
                        let k = choose|k: int| 0 <= k < m.len() && (#[trigger] m[k]).id@ == d[i].id@;
                        if k == j {
                            assert(r[j].id@ == user[i].id@);
                        } else {
                            assert(r[k] == m[k]);
                        }
                    } else {
                        assert(r[j].id@ == user[i].id@);
                    }
                }
            },
            None => {
                assert(r == m.push(u));
                assert(r[m.len() as int] == u);
                assert forall|a: int, b: int| 0 <= a < b < r.len() implies (#[trigger] r[a]).id@ != (#[trigger] r[b]).id@ by {
                    if b < m.len() {
                        assert(r[a] == m[a] && r[b] == m[b]);
                    } else {
                        assert(r[a] == m[a]);
                    }
                }
                assert forall|i: int| 0 <= i < base.len() implies has_id(r, (#[trigger] base[i]).id@) by {
                    assert(has_id(m, base[i].id@));
                    let k = choose|k: int| 0 <= k < m.len() && (#[trigger] m[k]).id@ == base[i].id@;
                    assert(r[k] == m[k]);
                }
                assert forall|i: int| 0 <= i < user.len() implies has_id(r, (#[trigger] user[i]).id@) by {
                    if i < d.len() {
                        assert(d[i] == user[i]);
                        assert(has_id(m, d[i].id@));
                        let k = choose|k: int| 0 <= k < m.len() && (#[trigger] m[k]).id@ == d[i].id@;
                        assert(r[k] == m[k]);
                    } else {
                        assert(r[m.len() as int].id@ == user[i].id@);
                    }
                }
            },
        }
    }
}

} // verus!
