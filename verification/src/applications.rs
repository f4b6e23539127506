//! The applications that a document refers to: in the text that is shown,
//! the name of each application gives way to the folder that the
//! configuration maps it to.

use crate::config::Config;
use crate::text::{replace_all, replaced, texts};
use vstd::prelude::*;

verus! {

/// The list `items` as the standard library writes a vector of strings for
/// debugging: what `format!("{:?}", ..)` gives for it.
pub uninterp spec fn debug_list(items: Seq<Seq<char>>) -> Seq<char>;

/// Writes `items` with the standard library's `Debug` of a vector of
/// strings. The text depends on the strings alone and is given the name
/// `debug_list`.
#[verifier::external_body]
fn debug_text(items: &Vec<String>) -> (text: String)
    ensures
        text@ == debug_list(texts(items@)),
{
    format!("{:?}", items)
}

/// The applications that have a name: those of `applications` that are not
/// empty, in their order.
pub open spec fn named(applications: Seq<Seq<char>>) -> Seq<Seq<char>>
    decreases applications.len(),
{
    if applications.len() == 0 {
        Seq::empty()
    } else if applications.last().len() == 0 {
        named(applications.drop_last())
    } else {
        named(applications.drop_last()).push(applications.last())
    }
}

/// The applications of `applications` that `config` maps to no folder, in
/// their order.
pub open spec fn unmapped(applications: Seq<Seq<char>>, config: Map<Seq<char>, Seq<char>>) -> Seq<
    Seq<char>,
>
    decreases applications.len(),
{
    if applications.len() == 0 {
        Seq::empty()
    } else if config.contains_key(applications.last()) {
        unmapped(applications.drop_last(), config)
    } else {
        unmapped(applications.drop_last(), config).push(applications.last())
    }
}

/// The text `content` after the name of each application, one after the
/// other in their order, was replaced by its folder wherever it occurs.
pub open spec fn with_folders(
    content: Seq<char>,
    applications: Seq<Seq<char>>,
    config: Map<Seq<char>, Seq<char>>,
) -> Seq<char>
    decreases applications.len(),
{
    if applications.len() == 0 {
        content
    } else {
        replaced(
            with_folders(content, applications.drop_last(), config),
            applications.last(),
            config[applications.last()],
        )
    }
}

/// The items with `, ` between each two.
pub open spec fn comma_list(items: Seq<Seq<char>>) -> Seq<char>
    decreases items.len(),
{
    if items.len() == 0 {
        Seq::empty()
    } else if items.len() == 1 {
        items[0]
    } else {
        comma_list(items.drop_last()) + ", "@ + items.last()
    }
}

/// The message for a document with applications where there is no
/// configuration.
pub open spec fn no_config_message(applications: Seq<Seq<char>>) -> Seq<char> {
    "Spec references applications "@ + debug_list(applications)
        + " but no config file found.\nCreate one with: tinyspec config set <repo-name> <path>"@
}

/// The message for applications that the configuration does not map.
pub open spec fn unmapped_message(missing: Seq<Seq<char>>) -> Seq<char> {
    "Spec references applications not found in config: "@ + comma_list(missing)
        + "\nAdd them with: tinyspec config set <repo-name> <path>"@
}

/// The text of a document as it is shown. A document that names no
/// application is shown as it is. Otherwise there has to be a configuration
/// that maps every application of the document to a folder, and the names of
/// the applications give way to the folders.
pub open spec fn resolved(
    content: Seq<char>,
    applications: Seq<Seq<char>>,
    config: Option<Map<Seq<char>, Seq<char>>>,
) -> Result<Seq<char>, Seq<char>> {
    let apps = named(applications);
    if apps.len() == 0 {
        Ok(content)
    } else {
        match config {
            None => Err(no_config_message(apps)),
            Some(c) => if unmapped(apps, c).len() > 0 {
                Err(unmapped_message(unmapped(apps, c)))
            } else {
                Ok(with_folders(content, apps, c))
            },
        }
    }
}

/// The mapping of an optional configuration.
pub open spec fn mapping(config: Option<&Config>) -> Option<Map<Seq<char>, Seq<char>>> {
    match config {
        Some(c) => Some(c@),
        None => None,
    }
}

/// The applications that have a name.
fn named_applications(applications: &Vec<String>) -> (apps: Vec<String>)
    ensures
        texts(apps@) == named(texts(applications@)),
{
    let ghost all = texts(applications@);
    let mut apps: Vec<String> = Vec::new();
    let mut k: usize = 0;
    assert(all.take(0) =~= Seq::<Seq<char>>::empty());
    assert(texts(apps@) =~= named(all.take(0)));
    while k < applications.len()
        invariant
            k <= applications@.len(),
            all == texts(applications@),
            texts(apps@) == named(all.take(k as int)),
        decreases applications@.len() - k,
    {
        let ghost before = texts(apps@);
        proof {
            assert(all.take(k + 1).drop_last() =~= all.take(k as int));
            assert(all.take(k + 1).last() == applications@[k as int]@);
        }
        if !applications[k].as_str().is_empty() {
            let app = applications[k].clone();
            apps.push(app);
            assert(texts(apps@) =~= before.push(app@));
        }
        k += 1;
    }
    assert(all.take(k as int) =~= all);
    apps
}

/// The items with `, ` between each two.
fn comma_separated(items: &Vec<String>) -> (text: String)
    ensures
        text@ == comma_list(texts(items@)),
{
    let ghost all = texts(items@);
    let mut text = String::new();
    let mut k: usize = 0;
    assert(all.take(0) =~= Seq::<Seq<char>>::empty());
    while k < items.len()
        invariant
            k <= items@.len(),
            all == texts(items@),
            text@ == comma_list(all.take(k as int)),
        decreases items@.len() - k,
    {
        let ghost before = text@;
        proof {
            assert(all.take(k + 1).drop_last() =~= all.take(k as int));
            assert(all.take(k + 1).last() == items@[k as int]@);
        }
        if k > 0 {
            text.append(", ");
        }
        text.append(items[k].as_str());
        proof {
            if k == 0 {
                assert(before =~= Seq::<char>::empty());
                assert(text@ =~= all.take(1)[0]);
            }
        }
        k += 1;
    }
    assert(all.take(k as int) =~= all);
    text
}

/// Resolves the applications of a document to the folders that the
/// configuration maps them to. `config` is `None` where there is no
/// configuration.
pub fn resolve_applications(
    content: &str,
    applications: &Vec<String>,
    config: Option<&Config>,
) -> (result: Result<String, String>)
    ensures
        match result {
            Ok(text) => resolved(content@, texts(applications@), mapping(config)) == Ok::<
                Seq<char>,
                Seq<char>,
            >(text@),
            Err(message) => resolved(content@, texts(applications@), mapping(config)) == Err::<
                Seq<char>,
                Seq<char>,
            >(message@),
        },
{
    let apps = named_applications(applications);
    if apps.len() == 0 {
        return Ok(String::from_str(content));
    }
    let config = match config {
        Some(c) => c,
        None => {
            let mut message = String::from_str("Spec references applications ");
            message.append(debug_text(&apps).as_str());
            message.append(
                " but no config file found.\nCreate one with: tinyspec config set <repo-name> <path>",
            );
            return Err(message);
        },
    };
    let ghost all = texts(apps@);
    let mut missing: Vec<String> = Vec::new();
    let mut output = String::from_str(content);
    let mut k: usize = 0;
    assert(all.take(0) =~= Seq::<Seq<char>>::empty());
    assert(texts(missing@) =~= unmapped(all.take(0), config@));
    while k < apps.len()
        invariant
            k <= apps@.len(),
            all == texts(apps@),
            texts(missing@) == unmapped(all.take(k as int), config@),
            missing@.len() == 0 ==> output@ == with_folders(content@, all.take(k as int), config@),
        decreases apps@.len() - k,
    {
        let ghost before = texts(missing@);
        proof {
            assert(all.take(k + 1).drop_last() =~= all.take(k as int));
            assert(all.take(k + 1).last() == apps@[k as int]@);
        }
        match config.get(apps[k].as_str()) {
            Some(folder) => {
                if missing.len() == 0 {
                    output = replace_all(output.as_str(), apps[k].as_str(), folder.as_str());
                }
            },
            None => {
                let app = apps[k].clone();
                missing.push(app);
                assert(texts(missing@) =~= before.push(app@));
            },
        }
        k += 1;
    }
    assert(all.take(k as int) =~= all);
    if missing.len() > 0 {
        let mut message = String::from_str("Spec references applications not found in config: ");
        message.append(comma_separated(&missing).as_str());
        message.append("\nAdd them with: tinyspec config set <repo-name> <path>");
        return Err(message);
    }
    Ok(output)
}

} // verus!
