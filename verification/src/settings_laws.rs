//! What the settings of the provider are read as.
use vstd::prelude::*;

use crate::config::{
    configured, declared_environments, declared_projects, environments_in, fault_in_options,
    filled, filled_or, first_fault, has_alias, is_on, optional, project_of, projects_in, required,
    scopes_of, scopes_of_project, seconds, seconds_or, segment_fault, setting_value, stated,
    ConfigErrorView, Environment, ScopeView, SettingView,
};
use crate::config_laws::{declared_environments_are_valid, declared_projects_are_valid};
use crate::number::whole_number;
use crate::text::{equal_but_for_case, is_white_space, split, trimmed};
use crate::text_laws::{
    has_clean_ends, is_blank, only_the_trailing_run_is_taken_off, separator_adds_a_piece,
    text_is_cut_at_the_first_separator, trimmed_text_has_clean_ends,
    trimming_takes_off_white_space,
};
use crate::token::{is_key, is_segment, token};

verus! {

/// A project alias or an environment is one or more of the letters a to z, the
/// digits and the hyphen; a key one or more of the letters, the digits and the
/// underscore.
pub proof fn segments_and_keys_have_their_characters(s: Seq<char>)
    ensures
        is_segment(s) <==> s.len() > 0 && forall|i: int|
            0 <= i < s.len() ==> ('a' <= #[trigger] s[i] <= 'z' || '0' <= s[i] <= '9' || s[i] == '-'),
        is_key(s) <==> s.len() > 0 && forall|i: int|
            0 <= i < s.len() ==> ('A' <= #[trigger] s[i] <= 'Z' || 'a' <= s[i] <= 'z' || '0' <= s[i]
                <= '9' || s[i] == '_'),
{
}

/// A token is the prefix of the provider, the alias, the environment and the key,
/// with a slash between them.
pub proof fn token_names_alias_environment_and_key(
    alias: Seq<char>,
    environment: Seq<char>,
    key: Seq<char>,
)
    ensures
        token(alias, environment, key) == "infisical://"@ + alias + "/"@ + environment + "/"@ + key,
{
}

/// A part of a token is refused exactly if it is empty or holds a character that
/// does not belong there, and the error says which.
pub proof fn only_bad_segments_are_refused(kind: Seq<char>, value: Seq<char>)
    ensures
        value.len() == 0 ==> segment_fault(kind, value) == Some(
            ConfigErrorView::EmptySegment { kind },
        ),
        value.len() > 0 && (exists|i: int|
            0 <= i < value.len() && !('a' <= #[trigger] value[i] <= 'z' || '0' <= value[i] <= '9'
                || value[i] == '-')) ==> segment_fault(kind, value) == Some(
            ConfigErrorView::BadSegment { kind, value },
        ),
        value.len() > 0 && (forall|i: int|
            0 <= i < value.len() ==> ('a' <= #[trigger] value[i] <= 'z' || '0' <= value[i] <= '9'
                || value[i] == '-')) ==> segment_fault(kind, value) is None,
{
    segments_and_keys_have_their_characters(value);
}

/// Whether a text is missing or holds nothing but white space.
pub open spec fn is_left_out(text: Option<Seq<char>>) -> bool {
    text matches Some(text) ==> is_blank(text)
}

/// A text that is left out counts as not given; another is taken without the white
/// space around it, or as it is where the white space counts.
pub proof fn blank_texts_count_as_left_out(text: Option<Seq<char>>, default_text: Seq<char>)
    ensures
        is_left_out(text) ==> stated(text) is None && filled(text) is None && filled_or(
            text,
            default_text,
        ) == default_text,
        !is_left_out(text) ==> stated(text) == Some(trimmed(text->0)) && filled(text) == text
            && filled_or(text, default_text) == text->0,
{
    if let Some(text) = text {
        trimmed_text_has_clean_ends(text);
    }
}

/// A setting is the value of its variable, or else what is in its file, without the
/// white space around it; without either it is not given. A file that cannot be
/// read, or holds nothing, is an error that names the setting and the file.
pub proof fn setting_is_its_value_or_its_file(name: Seq<char>, setting: SettingView)
    ensures
        !is_left_out(setting.value) ==> setting_value(name, setting) == Ok::<
            Option<Seq<char>>,
            ConfigErrorView,
        >(Some(trimmed(setting.value->0))),
        is_left_out(setting.value) && is_left_out(setting.file) ==> setting_value(name, setting)
            == Ok::<Option<Seq<char>>, ConfigErrorView>(None),
        is_left_out(setting.value) && !is_left_out(setting.file) ==> {
            let path = trimmed(setting.file->0);
            match setting.contents {
                Err(cause) => setting_value(name, setting) == Err::<
                    Option<Seq<char>>,
                    ConfigErrorView,
                >(ConfigErrorView::UnreadableFile { name, path, cause }),
                Ok(text) => if is_blank(text) {
                    setting_value(name, setting) == Err::<Option<Seq<char>>, ConfigErrorView>(
                        ConfigErrorView::EmptyFile { name, path },
                    )
                } else {
                    setting_value(name, setting) == Ok::<Option<Seq<char>>, ConfigErrorView>(
                        Some(trimmed(text)),
                    )
                },
            }
        },
{
    blank_texts_count_as_left_out(setting.value, Seq::empty());
    blank_texts_count_as_left_out(setting.file, Seq::empty());
    if let Ok(text) = setting.contents {
        trimmed_text_has_clean_ends(text);
    }
}

/// A setting that is required is read as any other, and it is an error that names
/// it if it is not given.
pub proof fn required_setting_must_be_given(name: Seq<char>, setting: SettingView)
    ensures
        match setting_value(name, setting) {
            Ok(Some(value)) => required(name, setting) == Ok::<Seq<char>, ConfigErrorView>(value),
            Ok(None) => required(name, setting) == Err::<Seq<char>, ConfigErrorView>(
                ConfigErrorView::Missing { name },
            ),
            Err(error) => required(name, setting) == Err::<Seq<char>, ConfigErrorView>(error),
        },
        !is_left_out(setting.value) ==> required(name, setting) == Ok::<
            Seq<char>,
            ConfigErrorView,
        >(trimmed(setting.value->0)),
        is_left_out(setting.value) && is_left_out(setting.file) ==> required(name, setting) == Err::<
            Seq<char>,
            ConfigErrorView,
        >(ConfigErrorView::Missing { name }),
{
    setting_is_its_value_or_its_file(name, setting);
}

/// A span of time is the whole number of seconds that its text spells, white space
/// aside; one that is left out takes its default, if it has one; and any other text
/// is an error that names the setting and the text.
pub proof fn span_is_a_whole_number_of_seconds(
    name: Seq<char>,
    raw: Option<Seq<char>>,
    default_seconds: u64,
)
    ensures
        is_left_out(raw) ==> seconds(name, raw) == Ok::<Option<u64>, ConfigErrorView>(None),
        is_left_out(raw) ==> seconds_or(name, raw, default_seconds) == Ok::<u64, ConfigErrorView>(
            default_seconds,
        ),
        !is_left_out(raw) ==> match whole_number(trimmed(raw->0)) {
            Some(n) => seconds(name, raw) == Ok::<Option<u64>, ConfigErrorView>(Some(n))
                && seconds_or(name, raw, default_seconds) == Ok::<u64, ConfigErrorView>(n),
            None => seconds(name, raw) == Err::<Option<u64>, ConfigErrorView>(
                ConfigErrorView::NotSeconds { name, raw: trimmed(raw->0) },
            ) && seconds_or(name, raw, default_seconds) == Err::<u64, ConfigErrorView>(
                ConfigErrorView::NotSeconds { name, raw: trimmed(raw->0) },
            ),
        },
{
    blank_texts_count_as_left_out(raw, Seq::empty());
}

/// The provider is switched on exactly by one of four words, in any case and with
/// white space around it.
pub proof fn four_words_switch_the_provider_on(
    before: Seq<char>,
    word: Seq<char>,
    after: Seq<char>,
)
    requires
        is_blank(before),
        has_clean_ends(word),
        is_blank(after),
    ensures
        is_on(before + word + after) <==> equal_but_for_case(word, "1"@) || equal_but_for_case(
            word,
            "true"@,
        ) || equal_but_for_case(word, "yes"@) || equal_but_for_case(word, "on"@),
{
    trimming_takes_off_white_space(before, word, after);
}

/// An entry for a project is cut at its first equals sign: what stands before it is
/// the alias, and all that stands behind it is the id, each without the white space
/// around it. An entry without one, a bad alias or an empty id is an error.
pub proof fn entry_is_an_alias_and_an_id(alias: Seq<char>, id: Seq<char>)
    requires
        forall|i: int| 0 <= i < alias.len() ==> #[trigger] alias[i] != '=',
    ensures
        ({
            let entry = alias + "="@ + id;
            let read = project_of(entry);
            let name = trimmed(alias);
            &&& project_of(alias) == Err::<(Seq<char>, Seq<char>), ConfigErrorView>(
                ConfigErrorView::NotAPair { entry: alias },
            )
            &&& name.len() == 0 ==> read == Err::<(Seq<char>, Seq<char>), ConfigErrorView>(
                ConfigErrorView::EmptySegment { kind: "project alias"@ },
            )
            &&& name.len() > 0 && !is_segment(name) ==> read == Err::<
                (Seq<char>, Seq<char>),
                ConfigErrorView,
            >(ConfigErrorView::BadSegment { kind: "project alias"@, value: name })
            &&& is_segment(name) && is_blank(id) ==> read == Err::<
                (Seq<char>, Seq<char>),
                ConfigErrorView,
            >(ConfigErrorView::EmptyProjectId { entry })
            &&& is_segment(name) && !is_blank(id) ==> read == Ok::<
                (Seq<char>, Seq<char>),
                ConfigErrorView,
            >((name, trimmed(id)))
        }),
{
    reveal_strlit("=");
    assert("="@ =~= seq!['=']);
    text_is_cut_at_the_first_separator(alias, '=', id);
    trimmed_text_has_clean_ends(id);
}

/// What a list declares: nothing, where it is not accepted.
pub open spec fn read_so_far<T>(read: Result<Seq<T>, ConfigErrorView>) -> Seq<T> {
    match read {
        Ok(found) => found,
        Err(_) => Seq::empty(),
    }
}

proof fn lemma_projects_push(
    entries: Seq<Seq<char>>,
    last: Seq<char>,
    before: Seq<(Seq<char>, Seq<char>)>,
)
    ensures
        ({
            let shorter = projects_in(entries, before);
            let longer = projects_in(entries.push(last), before);
            let known = read_so_far(shorter);
            if shorter is Ok || shorter->Err_0 is NoProject {
                longer == projects_in(seq![last], known)
            } else {
                longer == shorter
            }
        }),
    decreases entries.len(),
{
    if entries.len() == 0 {
        assert(entries.push(last) =~= seq![last]);
        if before.len() == 0 {
            assert(before =~= Seq::empty());
        }
    } else {
        let rest = entries.drop_first();
        assert(entries.push(last).drop_first() =~= rest.push(last));
        assert(entries.push(last)[0] == entries[0]);
        if trimmed(entries[0]).len() == 0 {
            lemma_projects_push(rest, last, before);
        } else if let Ok(project) = project_of(trimmed(entries[0])) {
            if !has_alias(before, project.0) {
                lemma_projects_push(rest, last, before.push(project));
            }
        }
    }
}

/// A list of projects is read entry by entry, from the left: a blank entry changes
/// nothing, an entry with a new alias is added behind those before it, and the
/// first entry that is wrong, or repeats an alias, is the error.
pub proof fn one_more_entry_declares_one_more_project(raw: Seq<char>, last: Seq<char>)
    requires
        forall|i: int| 0 <= i < last.len() ==> #[trigger] last[i] != ',',
    ensures
        ({
            let shorter = declared_projects(raw);
            let longer = declared_projects(raw + ","@ + last);
            let open = shorter is Ok || shorter->Err_0 is NoProject;
            let known = read_so_far(shorter);
            let project = project_of(trimmed(last));
            let repeats = exists|i: int|
                0 <= i < known.len() && (#[trigger] known[i]).0 == project->Ok_0.0;
            &&& !open || is_blank(last) ==> longer == shorter
            &&& open && !is_blank(last) && project is Err ==> longer == Err::<
                Seq<(Seq<char>, Seq<char>)>,
                ConfigErrorView,
            >(project->Err_0)
            &&& open && !is_blank(last) && project is Ok && repeats ==> longer == Err::<
                Seq<(Seq<char>, Seq<char>)>,
                ConfigErrorView,
            >(ConfigErrorView::RepeatedAlias { alias: project->Ok_0.0 })
            &&& open && !is_blank(last) && project is Ok && !repeats ==> longer == Ok::<
                Seq<(Seq<char>, Seq<char>)>,
                ConfigErrorView,
            >(known.push(project->Ok_0))
        }),
{
    reveal_strlit(",");
    assert(","@ =~= seq![',']);
    separator_adds_a_piece(raw, ',', last);
    let entries = split(raw, ","@);
    lemma_projects_push(entries, last, Seq::empty());
    trimmed_text_has_clean_ends(last);
    let shorter = declared_projects(raw);
    let known = read_so_far(shorter);
    reveal_with_fuel(projects_in, 3);
    assert(seq![last].drop_first() =~= Seq::empty());
    declared_projects_are_valid(raw);
}

/// A list of one entry declares what the entry says.
pub proof fn one_entry_declares_one_project(entry: Seq<char>)
    requires
        forall|i: int| 0 <= i < entry.len() ==> #[trigger] entry[i] != ',',
    ensures
        is_blank(entry) ==> declared_projects(entry) == Err::<
            Seq<(Seq<char>, Seq<char>)>,
            ConfigErrorView,
        >(ConfigErrorView::NoProject),
        !is_blank(entry) ==> match project_of(trimmed(entry)) {
            Ok(project) => declared_projects(entry) == Ok::<
                Seq<(Seq<char>, Seq<char>)>,
                ConfigErrorView,
            >(seq![project]),
            Err(error) => declared_projects(entry) == Err::<
                Seq<(Seq<char>, Seq<char>)>,
                ConfigErrorView,
            >(error),
        },
{
    reveal_strlit(",");
    assert(","@ =~= seq![',']);
    separator_adds_a_piece(entry, ',', entry);
    trimmed_text_has_clean_ends(entry);
    reveal_with_fuel(projects_in, 3);
    assert(seq![entry].drop_first() =~= Seq::empty());
    if let Ok(project) = project_of(trimmed(entry)) {
        assert(Seq::empty().push(project) =~= seq![project]);
    }
}

/// The list of projects in text: `<alias>=<id>` for each, with commas between them.
pub open spec fn project_list(projects: Seq<(Seq<char>, Seq<char>)>) -> Seq<char>
    decreases projects.len(),
{
    if projects.len() == 0 {
        Seq::empty()
    } else if projects.len() == 1 {
        projects[0].0 + "="@ + projects[0].1
    } else {
        project_list(projects.drop_last()) + ","@ + (projects.last().0 + "="@ + projects.last().1)
    }
}

proof fn lemma_segment_is_clean(s: Seq<char>)
    requires
        is_segment(s),
    ensures
        has_clean_ends(s),
        forall|i: int|
            0 <= i < s.len() ==> #[trigger] s[i] != ',' && s[i] != '=' && !is_white_space(s[i]),
{
    segments_and_keys_have_their_characters(s);
}

proof fn lemma_entry_is_read(alias: Seq<char>, id: Seq<char>)
    requires
        is_segment(alias),
        id.len() > 0,
        has_clean_ends(id),
        forall|i: int| 0 <= i < id.len() ==> #[trigger] id[i] != ',',
    ensures
        ({
            let entry = alias + "="@ + id;
            &&& forall|i: int| 0 <= i < entry.len() ==> #[trigger] entry[i] != ','
            &&& !is_blank(entry)
            &&& trimmed(entry) == entry
            &&& project_of(entry) == Ok::<(Seq<char>, Seq<char>), ConfigErrorView>((alias, id))
        }),
{
    reveal_strlit("=");
    let entry = alias + "="@ + id;
    lemma_segment_is_clean(alias);
    assert forall|i: int| 0 <= i < entry.len() implies #[trigger] entry[i] != ',' by {
        if i < alias.len() {
            assert(entry[i] == alias[i]);
        } else if i > alias.len() {
            assert(entry[i] == id[i - alias.len() - 1]);
        }
    }
    assert(entry[0] == alias[0]);
    assert(entry[entry.len() - 1] == id[id.len() - 1]);
    assert(has_clean_ends(entry));
    trimmed_text_has_clean_ends(entry);
    trimmed_text_has_clean_ends(alias);
    trimmed_text_has_clean_ends(id);
    entry_is_an_alias_and_an_id(alias, id);
}

/// A list of projects with valid aliases, no two the same, is read as exactly these
/// projects, in their order and with their whole ids, whatever an id holds but a
/// comma.
pub proof fn listed_projects_are_declared(projects: Seq<(Seq<char>, Seq<char>)>)
    requires
        projects.len() > 0,
        forall|i: int|
            0 <= i < projects.len() ==> is_segment((#[trigger] projects[i]).0) && projects[i].1.len()
                > 0 && has_clean_ends(projects[i].1) && !projects[i].1.contains(','),
        forall|i: int, j: int|
            0 <= i < j < projects.len() ==> (#[trigger] projects[i]).0 != (#[trigger] projects[j]).0,
    ensures
        declared_projects(project_list(projects)) == Ok::<
            Seq<(Seq<char>, Seq<char>)>,
            ConfigErrorView,
        >(projects),
    decreases projects.len(),
{
    let (alias, id) = projects.last();
    assert(projects[projects.len() - 1] == (alias, id));
    assert forall|i: int| 0 <= i < id.len() implies #[trigger] id[i] != ',' by {
        assert(id.contains(id[i]));
    }
    lemma_entry_is_read(alias, id);
    let entry = alias + "="@ + id;
    if projects.len() == 1 {
        one_entry_declares_one_project(entry);
        assert(seq![(alias, id)] =~= projects);
    } else {
        let front = projects.drop_last();
        assert forall|i: int| 0 <= i < front.len() implies is_segment((#[trigger] front[i]).0)
            && front[i].1.len() > 0 && has_clean_ends(front[i].1) && !front[i].1.contains(',') by {
            assert(front[i] == projects[i]);
        }
        assert forall|i: int, j: int| 0 <= i < j < front.len() implies (#[trigger] front[i]).0 != (
        #[trigger] front[j]).0 by {
            assert(projects[i].0 != projects[j].0);
        }
        listed_projects_are_declared(front);
        one_more_entry_declares_one_more_project(project_list(front), entry);
        assert forall|i: int| 0 <= i < front.len() implies (#[trigger] front[i]).0 != alias by {
            assert(projects[i].0 != projects[projects.len() - 1].0);
        }
        assert(front.push((alias, id)) =~= projects);
    }
}

proof fn lemma_environments_push(
    entries: Seq<Seq<char>>,
    last: Seq<char>,
    before: Seq<Seq<char>>,
)
    ensures
        ({
            let shorter = environments_in(entries, before);
            let longer = environments_in(entries.push(last), before);
            let known = read_so_far(shorter);
            if shorter is Ok || shorter->Err_0 is NoEnvironment {
                longer == environments_in(seq![last], known)
            } else {
                longer == shorter
            }
        }),
    decreases entries.len(),
{
    if entries.len() == 0 {
        assert(entries.push(last) =~= seq![last]);
        if before.len() == 0 {
            assert(before =~= Seq::empty());
        }
    } else {
        let rest = entries.drop_first();
        assert(entries.push(last).drop_first() =~= rest.push(last));
        assert(entries.push(last)[0] == entries[0]);
        let entry = trimmed(entries[0]);
        if entry.len() == 0 || before.contains(entry) {
            lemma_environments_push(rest, last, before);
        } else {
            lemma_environments_push(rest, last, before.push(entry));
        }
    }
}

/// A list of environments is read entry by entry, from the left: a blank entry and
/// one that is named already change nothing, another one is added behind those
/// before it, and the first that is wrong is the error.
pub proof fn one_more_entry_declares_one_more_environment(raw: Seq<char>, last: Seq<char>)
    requires
        forall|i: int| 0 <= i < last.len() ==> #[trigger] last[i] != ',',
    ensures
        ({
            let shorter = declared_environments(raw);
            let longer = declared_environments(raw + ","@ + last);
            let open = shorter is Ok || shorter->Err_0 is NoEnvironment;
            let known = read_so_far(shorter);
            let entry = trimmed(last);
            &&& !open || is_blank(last) ==> longer == shorter
            &&& open && !is_blank(last) && !is_segment(entry) ==> longer == Err::<
                Seq<Seq<char>>,
                ConfigErrorView,
            >(ConfigErrorView::BadSegment { kind: "environment"@, value: entry })
            &&& open && is_segment(entry) && known.contains(entry) ==> longer == shorter
            &&& open && is_segment(entry) && !known.contains(entry) ==> longer == Ok::<
                Seq<Seq<char>>,
                ConfigErrorView,
            >(known.push(entry))
        }),
{
    reveal_strlit(",");
    assert(","@ =~= seq![',']);
    separator_adds_a_piece(raw, ',', last);
    lemma_environments_push(split(raw, ","@), last, Seq::empty());
    trimmed_text_has_clean_ends(last);
    reveal_with_fuel(environments_in, 3);
    assert(seq![last].drop_first() =~= Seq::empty());
    declared_environments_are_valid(raw);
}

/// A list of one environment declares it.
pub proof fn one_entry_declares_one_environment(entry: Seq<char>)
    requires
        forall|i: int| 0 <= i < entry.len() ==> #[trigger] entry[i] != ',',
    ensures
        is_blank(entry) ==> declared_environments(entry) == Err::<Seq<Seq<char>>, ConfigErrorView>(
            ConfigErrorView::NoEnvironment,
        ),
        !is_blank(entry) && !is_segment(trimmed(entry)) ==> declared_environments(entry) == Err::<
            Seq<Seq<char>>,
            ConfigErrorView,
        >(ConfigErrorView::BadSegment { kind: "environment"@, value: trimmed(entry) }),
        is_segment(trimmed(entry)) ==> declared_environments(entry) == Ok::<
            Seq<Seq<char>>,
            ConfigErrorView,
        >(seq![trimmed(entry)]),
{
    reveal_strlit(",");
    assert(","@ =~= seq![',']);
    separator_adds_a_piece(entry, ',', entry);
    trimmed_text_has_clean_ends(entry);
    reveal_with_fuel(environments_in, 3);
    assert(seq![entry].drop_first() =~= Seq::empty());
    assert(Seq::empty().push(trimmed(entry)) =~= seq![trimmed(entry)]);
}

/// The list of environments in text, with commas between them.
pub open spec fn environment_list(environments: Seq<Seq<char>>) -> Seq<char>
    decreases environments.len(),
{
    if environments.len() == 0 {
        Seq::empty()
    } else if environments.len() == 1 {
        environments[0]
    } else {
        environment_list(environments.drop_last()) + ","@ + environments.last()
    }
}

/// A list of valid environments, no two the same, is read as exactly these, in their
/// order.
pub proof fn listed_environments_are_declared(environments: Seq<Seq<char>>)
    requires
        environments.len() > 0,
        forall|i: int| 0 <= i < environments.len() ==> is_segment(#[trigger] environments[i]),
        environments.no_duplicates(),
    ensures
        declared_environments(environment_list(environments)) == Ok::<
            Seq<Seq<char>>,
            ConfigErrorView,
        >(environments),
    decreases environments.len(),
{
    let last = environments[environments.len() - 1];
    lemma_segment_is_clean(last);
    trimmed_text_has_clean_ends(last);
    if environments.len() == 1 {
        one_entry_declares_one_environment(last);
        assert(seq![last] =~= environments);
    } else {
        let front = environments.drop_last();
        assert forall|i: int| 0 <= i < front.len() implies is_segment(#[trigger] front[i]) by {
            assert(front[i] == environments[i]);
        }
        listed_environments_are_declared(front);
        one_more_entry_declares_one_more_environment(environment_list(front), last);
        assert(!front.contains(last)) by {
            if front.contains(last) {
                let i = choose|i: int| 0 <= i < front.len() && front[i] == last;
                assert(environments[i] == environments[environments.len() - 1]);
            }
        }
        assert(front.push(last) =~= environments);
    }
}

/// The scopes come project by project, and within each environment by environment.
pub proof fn scopes_come_in_order(
    projects: Seq<(Seq<char>, Seq<char>)>,
    environments: Seq<Seq<char>>,
    i: int,
    j: int,
)
    requires
        0 <= i < projects.len(),
        0 <= j < environments.len(),
    ensures
        scopes_of(projects, environments).len() == projects.len() * environments.len(),
        i * environments.len() + j < scopes_of(projects, environments).len(),
        scopes_of(projects, environments)[i * environments.len() + j] == (ScopeView {
            alias: projects[i].0,
            project_id: projects[i].1,
            environment: environments[j],
        }),
    decreases projects.len(),
{
    let front = projects.drop_last();
    let m = environments.len();
    lemma_number_of_scopes(front, environments);
    lemma_number_of_scopes(projects, environments);
    let earlier = scopes_of(front, environments);
    let new = scopes_of_project(projects.last(), environments);
    assert(projects.len() * m == front.len() * m + m) by (nonlinear_arith)
        requires
            projects.len() == front.len() + 1,
    ;
    if i == projects.len() - 1 {
        assert(i * m == front.len() * m);
        assert(scopes_of(projects, environments)[i * m + j] == new[j]);
    } else {
        scopes_come_in_order(front, environments, i, j);
        assert(front[i] == projects[i]);
        assert(scopes_of(projects, environments)[i * m + j] == earlier[i * m + j]);
    }
}

proof fn lemma_number_of_scopes(
    projects: Seq<(Seq<char>, Seq<char>)>,
    environments: Seq<Seq<char>>,
)
    ensures
        scopes_of(projects, environments).len() == projects.len() * environments.len(),
    decreases projects.len(),
{
    let m = environments.len();
    if projects.len() == 0 {
        assert(projects.len() * m == 0) by (nonlinear_arith)
            requires
                projects.len() == 0,
        ;
    } else {
        let front = projects.drop_last();
        lemma_number_of_scopes(front, environments);
        assert(projects.len() * m == front.len() * m + m) by (nonlinear_arith)
            requires
                projects.len() == front.len() + 1,
        ;
    }
}

/// The first setting that is wrong is the error, in the order in which they are
/// read, and a configuration without one is accepted.
pub proof fn first_wrong_setting_is_the_error(environment: Environment)
    ensures
        ({
            let fault = first_fault(environment);
            let url = required("KOMODO_INFISICAL_URL"@, environment.url@);
            let client_id = required("KOMODO_INFISICAL_CLIENT_ID"@, environment.client_id@);
            let client_secret = required(
                "KOMODO_INFISICAL_CLIENT_SECRET"@,
                environment.client_secret@,
            );
            let projects = required("KOMODO_INFISICAL_PROJECTS"@, environment.projects@);
            let given = url is Ok && client_id is Ok && client_secret is Ok && projects is Ok;
            &&& url is Err ==> fault == Some(url->Err_0)
            &&& url is Ok && client_id is Err ==> fault == Some(client_id->Err_0)
            &&& url is Ok && client_id is Ok && client_secret is Err ==> fault == Some(
                client_secret->Err_0,
            )
            &&& url is Ok && client_id is Ok && client_secret is Ok && projects is Err ==> fault
                == Some(projects->Err_0)
            &&& given && declared_projects(projects->Ok_0) is Err ==> fault == Some(
                declared_projects(projects->Ok_0)->Err_0,
            )
            &&& given && declared_projects(projects->Ok_0) is Ok ==> fault == fault_in_options(
                environment,
            )
        }),
{
}

/// Among the settings that may be left out, too, the first that is wrong is the
/// error: the environments, the spans of time, and at last a limit on old secrets
/// below the time for which they are fresh.
pub proof fn first_wrong_option_is_the_error(environment: Environment)
    ensures
        ({
            let fault = fault_in_options(environment);
            let named = if is_left_out(optional(environment.environments)) {
                "prod"@
            } else {
                environment.environments->0@
            };
            let environments = declared_environments(named);
            let cache_ttl = seconds_or(
                "KOMODO_INFISICAL_CACHE_TTL_SECONDS"@,
                optional(environment.cache_ttl),
                300,
            );
            let stale_max = seconds(
                "KOMODO_INFISICAL_STALE_MAX_SECONDS"@,
                optional(environment.stale_max),
            );
            let stale_warn = seconds_or(
                "KOMODO_INFISICAL_STALE_WARN_SECONDS"@,
                optional(environment.stale_warn),
                3600,
            );
            let timeout = seconds_or(
                "KOMODO_INFISICAL_TIMEOUT_SECONDS"@,
                optional(environment.timeout),
                15,
            );
            let read = environments is Ok && cache_ttl is Ok && stale_max is Ok && stale_warn is Ok
                && timeout is Ok;
            &&& environments is Err ==> fault == Some(environments->Err_0)
            &&& environments is Ok && cache_ttl is Err ==> fault == Some(cache_ttl->Err_0)
            &&& environments is Ok && cache_ttl is Ok && stale_max is Err ==> fault == Some(
                stale_max->Err_0,
            )
            &&& environments is Ok && cache_ttl is Ok && stale_max is Ok && stale_warn is Err
                ==> fault == Some(stale_warn->Err_0)
            &&& environments is Ok && cache_ttl is Ok && stale_max is Ok && stale_warn is Ok
                && timeout is Err ==> fault == Some(timeout->Err_0)
            &&& read && stale_max->Ok_0 is Some && stale_max->Ok_0->0 < cache_ttl->Ok_0 ==> fault
                == Some(
                ConfigErrorView::StaleBelowTtl {
                    stale_max: stale_max->Ok_0->0,
                    cache_ttl: cache_ttl->Ok_0,
                },
            )
            &&& read && !(stale_max->Ok_0 is Some && stale_max->Ok_0->0 < cache_ttl->Ok_0)
                ==> fault is None
        }),
{
    blank_texts_count_as_left_out(optional(environment.environments), "prod"@);
}

/// A configuration that is accepted holds what the settings say: each required one
/// as it was read, the URL without the slashes at its end, a scope for each project
/// and environment, and each option or its default.
pub proof fn configuration_holds_the_settings(environment: Environment)
    requires
        first_fault(environment) is None,
    ensures
        ({
            let config = configured(environment);
            let url = required("KOMODO_INFISICAL_URL"@, environment.url@);
            let projects = required("KOMODO_INFISICAL_PROJECTS"@, environment.projects@);
            let named = if is_left_out(optional(environment.environments)) {
                "prod"@
            } else {
                environment.environments->0@
            };
            &&& url is Ok && projects is Ok
            &&& config.url.len() > 0 ==> config.url[config.url.len() - 1] != '/'
            &&& exists|run: Seq<char>|
                (forall|i: int| 0 <= i < run.len() ==> #[trigger] run[i] == '/') && url->Ok_0
                    == #[trigger] (config.url + run)
            &&& required("KOMODO_INFISICAL_CLIENT_ID"@, environment.client_id@) == Ok::<
                Seq<char>,
                ConfigErrorView,
            >(config.client_id)
            &&& required("KOMODO_INFISICAL_CLIENT_SECRET"@, environment.client_secret@) == Ok::<
                Seq<char>,
                ConfigErrorView,
            >(config.client_secret)
            &&& declared_projects(projects->Ok_0) is Ok
            &&& declared_environments(named) is Ok
            &&& config.scopes == scopes_of(
                declared_projects(projects->Ok_0)->Ok_0,
                declared_environments(named)->Ok_0,
            )
            &&& config.secret_path == if is_left_out(optional(environment.secret_path)) {
                "/"@
            } else {
                environment.secret_path->0@
            }
            &&& seconds_or(
                "KOMODO_INFISICAL_CACHE_TTL_SECONDS"@,
                optional(environment.cache_ttl),
                300,
            ) == Ok::<u64, ConfigErrorView>(config.cache_ttl)
            &&& seconds("KOMODO_INFISICAL_STALE_MAX_SECONDS"@, optional(environment.stale_max))
                == Ok::<Option<u64>, ConfigErrorView>(config.stale_max)
            &&& seconds_or(
                "KOMODO_INFISICAL_STALE_WARN_SECONDS"@,
                optional(environment.stale_warn),
                3600,
            ) == Ok::<u64, ConfigErrorView>(config.stale_warn)
            &&& seconds_or(
                "KOMODO_INFISICAL_TIMEOUT_SECONDS"@,
                optional(environment.timeout),
                15,
            ) == Ok::<u64, ConfigErrorView>(config.timeout)
            &&& config.cache_file == if is_left_out(optional(environment.cache_file)) {
                None
            } else {
                Some(environment.cache_file->0@)
            }
        }),
{
    blank_texts_count_as_left_out(optional(environment.environments), "prod"@);
    blank_texts_count_as_left_out(optional(environment.secret_path), "/"@);
    blank_texts_count_as_left_out(optional(environment.cache_file), "/"@);
    let given = required("KOMODO_INFISICAL_URL"@, environment.url@)->Ok_0;
    let n = lemma_trailing_run(given, '/');
    let run = given.skip(n);
    assert(given =~= given.take(n) + run);
    only_the_trailing_run_is_taken_off(given.take(n), '/', run);
    assert(given == configured(environment).url + run);
}

proof fn lemma_trailing_run(s: Seq<char>, c: char) -> (n: int)
    ensures
        0 <= n <= s.len(),
        n > 0 ==> s[n - 1] != c,
        forall|i: int| 0 <= i < s.skip(n).len() ==> #[trigger] s.skip(n)[i] == c,
    decreases s.len(),
{
    if s.len() > 0 && s[s.len() - 1] == c {
        let n = lemma_trailing_run(s.drop_last(), c);
        assert forall|i: int| 0 <= i < s.skip(n).len() implies #[trigger] s.skip(n)[i] == c by {
            if i < s.skip(n).len() - 1 {
                assert(s.drop_last().skip(n)[i] == s[n + i]);
            }
        }
        n
    } else {
        s.len() as int
    }
}

} // verus!
