//! Trusted boundary around the Fluent localization machinery.
//!
//! The message catalogs themselves are Fluent bundles: parsing FTL source
//! text, storing message entries and formatting patterns is the outside
//! crates' work and is reached only through the declarations and wrappers
//! here. Contracts speak of a catalog through names for its contents: the
//! message ids it holds, the entry ids it has registered, and the
//! formatting function over a bundle, a message id, an optional attribute
//! and the interpolation arguments.

use vstd::prelude::*;

verus! {

/// A message catalog: a Fluent bundle over owned resources with the
/// thread-safe memoizer, as the language packs hold it.
pub type Catalog = fluent_bundle::bundle::FluentBundle<
    fluent_bundle::FluentResource,
    intl_memoizer::concurrent::IntlLangMemoizer,
>;

#[verifier::external_type_specification]
#[verifier::external_body]
#[verifier::reject_recursive_types(R)]
#[verifier::reject_recursive_types(M)]
pub struct ExFluentBundle<R, M>(fluent_bundle::bundle::FluentBundle<R, M>);

#[verifier::external_type_specification]
#[verifier::external_body]
pub struct ExFluentResource(fluent_bundle::FluentResource);

#[verifier::external_type_specification]
#[verifier::external_body]
pub struct ExIntlLangMemoizer(intl_memoizer::concurrent::IntlLangMemoizer);

#[verifier::external_type_specification]
#[verifier::external_body]
pub struct ExLanguageIdentifier(unic_langid::LanguageIdentifier);

/// The canonical text form of a locale identifier, if the given text is a
/// well-formed identifier at all; what `LanguageIdentifier` parsing and
/// display produce for it.
pub uninterp spec fn locale_canon(s: Seq<char>) -> Option<Seq<char>>;

/// The message ids an FTL source text defines, or nothing if the text does
/// not parse; what `FluentResource` parsing extracts from it.
pub uninterp spec fn ftl_msgs(s: Seq<char>) -> Option<Set<Seq<char>>>;

/// The entry ids (messages and terms together) an FTL source text
/// defines, or nothing if the text does not parse. Entries share one id
/// namespace in a catalog, so these decide collisions.
pub uninterp spec fn ftl_entries(s: Seq<char>) -> Option<Set<Seq<char>>>;

/// The message ids a parsed Fluent resource carries.
pub uninterp spec fn resource_msgs(r: fluent_bundle::FluentResource) -> Set<Seq<char>>;

/// The entry ids (messages and terms) a parsed Fluent resource carries.
pub uninterp spec fn resource_entries(r: fluent_bundle::FluentResource) -> Set<Seq<char>>;

/// The message ids a catalog holds.
pub uninterp spec fn bundle_msgs(b: Catalog) -> Set<Seq<char>>;

/// The entry ids (messages and terms) a catalog has registered.
pub uninterp spec fn bundle_entries(b: Catalog) -> Set<Seq<char>>;

/// What formatting a message (or one of its named attributes) of a catalog
/// with the given interpolation arguments yields: the formatted text, or
/// nothing when the id or attribute is absent, the message has no value,
/// or formatting reports errors.
pub uninterp spec fn bundle_format(
    b: Catalog,
    key: Seq<char>,
    attr: Option<Seq<char>>,
    args: Seq<(Seq<char>, Seq<char>)>,
) -> Option<Seq<char>>;

/// The interpolation arguments as name/value character sequences; absent
/// arguments read as none at all.
pub open spec fn args_view(args: Option<&Vec<(String, String)>>) -> Seq<(Seq<char>, Seq<char>)> {
    match args {
        Some(v) => v@.map_values(|p: (String, String)| (p.0@, p.1@)),
        None => Seq::empty(),
    }
}

/// Relies on `unic_langid::LanguageIdentifier`'s `FromStr` and `Display`:
/// parsing validates and canonicalizes a locale identifier, and both are
/// functions of the input text alone.
#[verifier::external_body]
pub(crate) fn locale_parse(s: &str) -> (r: Option<(unic_langid::LanguageIdentifier, String)>)
    ensures
        match r {
            Some(p) => locale_canon(s@) == Some(p.1@),
            None => locale_canon(s@) is None,
        },
{
    match s.parse::<unic_langid::LanguageIdentifier>() {
        Ok(id) => {
            let canon = id.to_string();
            Some((id, canon))
        },
        Err(_) => None,
    }
}

/// Relies on `FluentBundle::new_concurrent`: a bundle starts with no
/// resources, so it holds no messages.
#[verifier::external_body]
pub(crate) fn bundle_new(locale: unic_langid::LanguageIdentifier) -> (b: Catalog)
    ensures
        bundle_msgs(b) == Set::<Seq<char>>::empty(),
        bundle_entries(b) == Set::<Seq<char>>::empty(),
{
    fluent_bundle::bundle::FluentBundle::new_concurrent(vec![locale])
}

/// Relies on `FluentResource::try_new`: parsing FTL source text succeeds
/// or fails, and yields the message and entry ids, depending on the text
/// alone. Every message is an entry.
#[verifier::external_body]
pub(crate) fn resource_try_new(source: String) -> (r: Option<fluent_bundle::FluentResource>)
    ensures
        match r {
            Some(res) => ftl_msgs(source@) == Some(resource_msgs(res)) && ftl_entries(source@)
                == Some(resource_entries(res)) && resource_msgs(res).subset_of(
                resource_entries(res),
            ),
            None => ftl_msgs(source@) is None && ftl_entries(source@) is None,
        },
{
    fluent_bundle::FluentResource::try_new(source).ok()
}

/// Relies on `FluentBundle::add_resource`: every entry id of the
/// resource is registered; an id colliding with an entry already present
/// keeps the entry already present. So the bundle loses no message,
/// gains messages only from the resource, gains every resource message
/// whose id was still free, and messages outside the resource's ids are
/// untouched.
#[verifier::external_body]
pub(crate) fn bundle_add_resource(b: &mut Catalog, r: fluent_bundle::FluentResource)
    ensures
        bundle_entries(*final(b)) == bundle_entries(*old(b)).union(resource_entries(r)),
        bundle_msgs(*old(b)).subset_of(bundle_msgs(*final(b))),
        bundle_msgs(*final(b)).subset_of(bundle_msgs(*old(b)).union(resource_msgs(r))),
        forall|k: Seq<char>|
            resource_msgs(r).contains(k) && !bundle_entries(*old(b)).contains(k) ==> bundle_msgs(
                *final(b),
            ).contains(k),
        forall|k: Seq<char>|
            !resource_msgs(r).contains(k) ==> (bundle_msgs(*final(b)).contains(k) <==> bundle_msgs(
                *old(b),
            ).contains(k)),
{
    let _ = b.add_resource(r);
}

/// Relies on `FluentBundle::get_message`, `FluentMessage::value` and
/// `FluentBundle::format_pattern`: looks a message up by id and formats
/// its value pattern with the given arguments. `get_message` returns
/// nothing for an id the bundle does not hold.
#[verifier::external_body]
pub(crate) fn bundle_format_message(
    b: &Catalog,
    key: &str,
    args: Option<&Vec<(String, String)>>,
) -> (r: Option<String>)
    ensures
        match r {
            Some(out) => bundle_format(*b, key@, None, args_view(args)) == Some(out@),
            None => bundle_format(*b, key@, None, args_view(args)) is None,
        },
        !bundle_msgs(*b).contains(key@) ==> r is None,
{
    let fargs: Option<fluent_bundle::FluentArgs> = args.map(
        |v| v.iter().map(|p| (p.0.as_str(), p.1.as_str())).collect(),
    );
    let msg = b.get_message(key)?;
    let pattern = msg.value()?;
    let mut errors = Vec::new();
    let out = b.format_pattern(pattern, fargs.as_ref(), &mut errors);
    if errors.is_empty() {
        Some(out.into_owned())
    } else {
        None
    }
}

/// Relies on `FluentBundle::get_message`, `FluentMessage::get_attribute`,
/// `FluentAttribute::value` and `FluentBundle::format_pattern`: looks a
/// named attribute of a message up and formats its pattern with the given
/// arguments. `get_message` returns nothing for an id the bundle does not
/// hold.
#[verifier::external_body]
pub(crate) fn bundle_format_attr(
    b: &Catalog,
    key: &str,
    attr: &str,
    args: Option<&Vec<(String, String)>>,
) -> (r: Option<String>)
    ensures
        match r {
            Some(out) => bundle_format(*b, key@, Some(attr@), args_view(args)) == Some(out@),
            None => bundle_format(*b, key@, Some(attr@), args_view(args)) is None,
        },
        !bundle_msgs(*b).contains(key@) ==> r is None,
{
    let fargs: Option<fluent_bundle::FluentArgs> = args.map(
        |v| v.iter().map(|p| (p.0.as_str(), p.1.as_str())).collect(),
    );
    let msg = b.get_message(key)?;
    let attribute = msg.get_attribute(attr)?;
    let mut errors = Vec::new();
    let out = b.format_pattern(attribute.value(), fargs.as_ref(), &mut errors);
    if errors.is_empty() {
        Some(out.into_owned())
    } else {
        None
    }
}

} // verus!
