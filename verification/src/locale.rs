//! Locales (BCP 47 language identifiers) and the language roots that group
//! them.
use vstd::prelude::*;
use crate::error::{ErrorModel, LingoraError};
use crate::order::{compare_option_text, compare_text, compare_texts, option_order, text_order, texts_order};
use crate::paths::{file_stem_of, components_of, normal_names, parent_components, opt_text};
use crate::text::{concat2, join, join_strings, views};

verus! {

/// The subtags of a locale.
pub struct LocaleModel {
    pub language: Seq<char>,
    pub script: Option<Seq<char>>,
    pub region: Option<Seq<char>>,
    pub variants: Seq<Seq<char>>,
}

/// A validated BCP 47 language identifier such as `en-GB` or `sr-Cyrl-RS`,
/// held as its normalized subtags.
#[derive(Clone, Debug, PartialEq, Eq, Hash)]
pub struct Locale {
    language: String,
    script: Option<String>,
    region: Option<String>,
    variants: Vec<String>,
}

impl View for Locale {
    type V = LocaleModel;

    closed spec fn view(&self) -> LocaleModel {
        LocaleModel {
            language: self.language@,
            script: opt_text(self.script),
            region: opt_text(self.region),
            variants: views(self.variants@),
        }
    }
}

/// The language, script and region subtags, in order.
pub open spec fn subtag_head(l: LocaleModel) -> Seq<Seq<char>> {
    let with_script = match l.script {
        Some(s) => seq![l.language, s],
        None => seq![l.language],
    };
    match l.region {
        Some(r) => with_script.push(r),
        None => with_script,
    }
}

/// The subtags in order: language, script, region, variants.
pub open spec fn subtags(l: LocaleModel) -> Seq<Seq<char>> {
    subtag_head(l) + l.variants
}

/// The locale `en`.
pub open spec fn english_model() -> LocaleModel {
    LocaleModel { language: "en"@, script: None, region: None, variants: Seq::empty() }
}

/// The text of a locale: its subtags joined by `-` (as `icu_locale_core`
/// writes a `LanguageIdentifier`).
pub open spec fn locale_text(l: LocaleModel) -> Seq<char> {
    join(subtags(l), "-"@)
}

/// The order of locales: by language, then script, then region, then
/// variants; an absent subtag first.
pub open spec fn locale_order(a: LocaleModel, b: LocaleModel) -> int {
    if text_order(a.language, b.language) != 0 {
        text_order(a.language, b.language)
    } else if option_order(a.script, b.script) != 0 {
        option_order(a.script, b.script)
    } else if option_order(a.region, b.region) != 0 {
        option_order(a.region, b.region)
    } else {
        texts_order(a.variants, b.variants)
    }
}

/// What `icu_locale_core::Locale::try_from_str` reports of a text: `None`
/// when it accepts the text, else the `Display` text of its error.
pub uninterp spec fn bcp47_locale_error(text: Seq<char>) -> Option<Seq<char>>;

/// The subtags `icu_locale_core::LanguageIdentifier::try_from_str` parses
/// from a text, or the `Display` text of its error.
pub uninterp spec fn language_identifier_parse(text: Seq<char>) -> Result<LocaleModel, Seq<char>>;

/// Validates `text` with `icu_locale_core::Locale::try_from_str`. The
/// contract names the outcome `bcp47_locale_error(text)`.
#[verifier::external_body]
fn check_bcp47_locale(text: &str) -> (res: Option<String>)
    ensures
        opt_text(res) == bcp47_locale_error(text@),
{
    icu_locale_core::Locale::try_from_str(text).err().map(|e| e.to_string())
}

/// Parses `text` with `icu_locale_core::LanguageIdentifier::try_from_str`
/// and hands back its subtags as text. The contract names the outcome
/// `language_identifier_parse(text)`.
#[verifier::external_body]
fn parse_language_identifier(text: &str) -> (res: Result<Locale, String>)
    ensures
        match res {
            Ok(l) => language_identifier_parse(text@) == Ok::<LocaleModel, Seq<char>>(l@),
            Err(e) => language_identifier_parse(text@) == Err::<LocaleModel, Seq<char>>(e@),
        },
{
    match icu_locale_core::LanguageIdentifier::try_from_str(text) {
        Ok(id) => Ok(Locale {
            language: id.language.to_string(),
            script: id.script.map(|s| s.to_string()),
            region: id.region.map(|r| r.to_string()),
            variants: id.variants.iter().map(|v| v.to_string()).collect(),
        }),
        Err(e) => Err(e.to_string()),
    }
}

/// The message of an invalid locale: `{error}: '{text}'`.
pub open spec fn invalid_locale_message(error: Seq<char>, text: Seq<char>) -> Seq<char> {
    error + ": '"@ + text + "'"@
}

/// The locale a text denotes: it must pass both BCP 47 validations, and is
/// then the parsed language identifier; else the error of the first check
/// that refused it.
pub open spec fn locale_from_text(text: Seq<char>) -> Result<LocaleModel, Seq<char>> {
    match bcp47_locale_error(text) {
        Some(e) => Err(invalid_locale_message(e, text)),
        None => match language_identifier_parse(text) {
            Ok(l) => Ok(l),
            Err(e) => Err(invalid_locale_message(e, text)),
        },
    }
}

/// The last of `names` that denotes a locale.
pub open spec fn last_locale_among(names: Seq<Seq<char>>) -> Option<LocaleModel>
    decreases names.len(),
{
    if names.len() == 0 {
        None
    } else {
        match locale_from_text(names.last()) {
            Ok(l) => Some(l),
            Err(_) => last_locale_among(names.drop_last()),
        }
    }
}

/// The locale a path denotes: the file stem if it is a locale, else the
/// nearest enclosing folder whose name is a locale.
pub open spec fn locale_of_path(path: Seq<char>) -> Option<LocaleModel> {
    match file_stem_of(path) {
        Some(stem) if locale_from_text(stem) is Ok => Some(locale_from_text(stem)->Ok_0),
        _ => last_locale_among(normal_names(parent_components(components_of(path)))),
    }
}

/// The system locale, as `sys_locale::get_locale` reports it.
#[verifier::external_body]
fn system_locale() -> (res: Option<String>) {
    sys_locale::get_locale()
}

impl Locale {
    /// The language subtag.
    pub fn language(&self) -> (res: &String)
        ensures
            res@ == self@.language,
    {
        &self.language
    }

    /// The script subtag, if any.
    pub fn script(&self) -> (res: Option<&String>)
        ensures
            match res {
                Some(s) => self@.script == Some(s@),
                None => self@.script is None,
            },
    {
        self.script.as_ref()
    }

    /// The region subtag, if any.
    pub fn region(&self) -> (res: Option<&String>)
        ensures
            match res {
                Some(s) => self@.region == Some(s@),
                None => self@.region is None,
            },
    {
        self.region.as_ref()
    }

    /// Whether the locale has variant subtags.
    pub fn has_variants(&self) -> (res: bool)
        ensures
            res == (self@.variants.len() > 0),
    {
        self.variants.len() > 0
    }

    /// A copy of this locale.
    pub fn copy(&self) -> (res: Locale)
        ensures
            res@ == self@,
    {
        let mut variants: Vec<String> = Vec::new();
        let n = self.variants.len();
        let mut i: usize = 0;
        while i < n
            invariant
                n == self.variants.len(),
                i <= n,
                variants.len() == i,
                forall|j: int| 0 <= j < i ==> variants@[j]@ == self.variants@[j]@,
            decreases n - i,
        {
            variants.push(self.variants[i].clone());
            i += 1;
        }
        assert(views(variants@) =~= views(self.variants@));
        Locale {
            language: self.language.clone(),
            script: match &self.script { Some(s) => Some(s.clone()), None => None },
            region: match &self.region { Some(s) => Some(s.clone()), None => None },
            variants,
        }
    }

    /// Whether two locales have the same subtags.
    pub fn same_as(&self, other: &Locale) -> (res: bool)
        ensures
            res == (self@ == other@),
    {
        let c = self.compare(other);
        proof { lemma_locale_order_zero(self@, other@); }
        c == 0
    }

    /// The order of two locales.
    pub fn compare(&self, other: &Locale) -> (res: i8)
        ensures
            res as int == locale_order(self@, other@),
    {
        let c = compare_text(self.language.as_str(), other.language.as_str());
        if c != 0 {
            return c;
        }
        let c = compare_option_text(&self.script, &other.script);
        if c != 0 {
            return c;
        }
        let c = compare_option_text(&self.region, &other.region);
        if c != 0 {
            return c;
        }
        compare_texts(&self.variants, &other.variants)
    }

    /// The subtags of this locale, in order.
    pub fn subtags(&self) -> (res: Vec<String>)
        ensures
            views(res@) == subtags(self@),
    {
        let mut res: Vec<String> = Vec::new();
        res.push(self.language.clone());
        match &self.script {
            Some(s) => res.push(s.clone()),
            None => {},
        }
        match &self.region {
            Some(r) => res.push(r.clone()),
            None => {},
        }
        let ghost head = res@;
        assert(views(head) =~= subtag_head(self@));
        let n = self.variants.len();
        let mut i: usize = 0;
        while i < n
            invariant
                n == self.variants.len(),
                i <= n,
                res.len() == head.len() + i,
                forall|j: int| 0 <= j < head.len() ==> res@[j] == head[j],
                forall|j: int| 0 <= j < i ==> res@[head.len() + j]@ == self.variants@[j]@,
            decreases n - i,
        {
            res.push(self.variants[i].clone());
            i += 1;
        }
        assert(views(res@) =~= subtags(self@));
        res
    }

    /// The text of this locale, e.g. `sr-Cyrl-RS`.
    pub fn to_text(&self) -> (res: String)
        ensures
            res@ == locale_text(self@),
    {
        join_strings(&self.subtags(), "-")
    }

    /// Parses a BCP 47 language tag. The text must pass the validation of
    /// `icu_locale_core::Locale` and then parse as a language identifier;
    /// otherwise the error is `InvalidLocale` with `{error}: '{text}'`.
    pub fn from_str(text: &str) -> (res: Result<Locale, LingoraError>)
        ensures
            match locale_from_text(text@) {
                Ok(l) => res matches Ok(r) && r@ == l,
                Err(m) => res matches Err(e) && e@ == ErrorModel::InvalidLocale(m),
            },
    {
        match check_bcp47_locale(text) {
            Some(e) => Err(LingoraError::InvalidLocale(invalid_locale_text(&e, text))),
            None => match parse_language_identifier(text) {
                Ok(l) => Ok(l),
                Err(e) => Err(LingoraError::InvalidLocale(invalid_locale_text(&e, text))),
            },
        }
    }

    /// The locale a path denotes: the file stem if it is a locale, else the
    /// nearest enclosing folder named as a locale; otherwise `InvalidLocale`.
    pub fn try_from_path(path: &str) -> (res: Result<Locale, LingoraError>)
        ensures
            match locale_of_path(path@) {
                Some(l) => res matches Ok(r) && r@ == l,
                None => res matches Err(e) && e@ == ErrorModel::InvalidLocale(
                    "No valid locale found in path: "@ + path@),
            },
    {
        match crate::paths::path_file_stem(path) {
            Some(stem) => {
                match Locale::from_str(stem.as_str()) {
                    Ok(l) => return Ok(l),
                    Err(_) => {},
                }
            },
            None => {},
        }
        let names = crate::paths::parent_normal_names(path);
        let mut i = names.len();
        let ghost all = views(names@);
        assert(all.take(i as int) =~= all);
        assert(locale_of_path(path@) == last_locale_among(all));
        while i > 0
            invariant
                i <= names.len(),
                all == views(names@),
                locale_of_path(path@) == last_locale_among(all),
                last_locale_among(all) == last_locale_among(all.take(i as int)),
            decreases i,
        {
            let ghost prefix = all.take(i as int);
            assert(prefix.last() == names@[i - 1]@);
            assert(prefix.drop_last() =~= all.take(i - 1));
            match Locale::from_str(names[i - 1].as_str()) {
                Ok(l) => {
                    assert(last_locale_among(prefix) == Some(l@));
                    return Ok(l);
                },
                Err(_) => {},
            }
            i -= 1;
        }
        assert(all.take(0) =~= Seq::<Seq<char>>::empty());
        Err(LingoraError::InvalidLocale(concat2("No valid locale found in path: ", path)))
    }

    /// The locale the system reports, where it is one; `en` when the system
    /// reports none or a text that is not a locale.
    pub fn locale_or_english(system: Option<String>) -> (res: Locale)
        ensures
            match system {
                Some(t) => match locale_from_text(t@) {
                    Ok(l) => res@ == l,
                    Err(_) => res@ == english_model(),
                },
                None => res@ == english_model(),
            },
    {
        match system {
            Some(text) => match Locale::from_str(text.as_str()) {
                Ok(l) => l,
                Err(_) => Locale::english(),
            },
            None => Locale::english(),
        }
    }

    /// The system locale (`sys_locale::get_locale`), or `en` when the system
    /// reports none or a text that is not a locale.
    pub fn system_default() -> (res: Locale)
        ensures
            res@ == english_model() || exists|t: Seq<char>| locale_from_text(t) == Ok::<LocaleModel, Seq<char>>(res@),
    {
        Locale::locale_or_english(system_locale())
    }

    /// The locale `en`.
    pub fn english() -> (res: Locale)
        ensures
            res@ == english_model(),
    {
        let variants: Vec<String> = Vec::new();
        let res = Locale { language: String::from_str("en"), script: None, region: None, variants };
        assert(views(variants@) =~= Seq::<Seq<char>>::empty());
        res
    }

    /// The language root of this locale.
    pub fn language_root(&self) -> (res: LanguageRoot)
        ensures
            res@ == root_of(self@),
    {
        match &self.script {
            None => LanguageRoot::ImplicitScript(self.language.clone()),
            Some(s) => LanguageRoot::Scripted(self.language.clone(), s.clone()),
        }
    }
}

/// `{error}: '{text}'`.
fn invalid_locale_text(error: &String, text: &str) -> (res: String)
    ensures
        res@ == invalid_locale_message(error@, text@),
{
    let mut res = error.clone();
    res.append(": '");
    res.append(text);
    res.append("'");
    res
}

/// Locales compare equal exactly when they are the same.
pub proof fn lemma_locale_order_zero(a: LocaleModel, b: LocaleModel)
    ensures
        locale_order(a, b) == 0 <==> a == b,
{
    crate::order::lemma_text_order_zero(a.language, b.language);
    match (a.script, b.script) {
        (Some(x), Some(y)) => crate::order::lemma_text_order_zero(x, y),
        _ => {},
    }
    match (a.region, b.region) {
        (Some(x), Some(y)) => crate::order::lemma_text_order_zero(x, y),
        _ => {},
    }
    lemma_texts_order_zero(a.variants, b.variants);
}

/// Sequences of texts compare equal exactly when they are the same.
pub proof fn lemma_texts_order_zero(a: Seq<Seq<char>>, b: Seq<Seq<char>>)
    ensures
        texts_order(a, b) == 0 <==> a == b,
    decreases a.len(),
{
    if a.len() > 0 && b.len() > 0 {
        crate::order::lemma_text_order_zero(a[0], b[0]);
        lemma_texts_order_zero(a.drop_first(), b.drop_first());
        if a[0] == b[0] && a.drop_first() == b.drop_first() {
            assert(a =~= seq![a[0]] + a.drop_first());
            assert(b =~= seq![b[0]] + b.drop_first());
        }
        if a == b {
            assert(a.drop_first() == b.drop_first());
        }
    }
    if a.len() == 0 && b.len() == 0 {
        assert(a =~= b);
    }
}

/// The root of a language: the language alone when no script is given,
/// else the language with its script.
#[derive(Clone, Debug, PartialEq, Eq, Hash)]
pub enum LanguageRoot {
    ImplicitScript(String),
    Scripted(String, String),
}

/// A language root, as views.
pub enum RootModel {
    ImplicitScript(Seq<char>),
    Scripted(Seq<char>, Seq<char>),
}

impl View for LanguageRoot {
    type V = RootModel;

    open spec fn view(&self) -> RootModel {
        match self {
            LanguageRoot::ImplicitScript(l) => RootModel::ImplicitScript(l@),
            LanguageRoot::Scripted(l, s) => RootModel::Scripted(l@, s@),
        }
    }
}

/// The language root of a locale.
pub open spec fn root_of(l: LocaleModel) -> RootModel {
    match l.script {
        None => RootModel::ImplicitScript(l.language),
        Some(s) => RootModel::Scripted(l.language, s),
    }
}

/// The text of a language root: `language` or `language-Script`.
pub open spec fn root_text(r: RootModel) -> Seq<char> {
    match r {
        RootModel::ImplicitScript(l) => l,
        RootModel::Scripted(l, s) => l + "-"@ + s,
    }
}

impl LanguageRoot {
    /// A copy of this root.
    pub fn copy(&self) -> (res: LanguageRoot)
        ensures
            res@ == self@,
    {
        match self {
            LanguageRoot::ImplicitScript(l) => LanguageRoot::ImplicitScript(l.clone()),
            LanguageRoot::Scripted(l, s) => LanguageRoot::Scripted(l.clone(), s.clone()),
        }
    }

    /// Whether two roots are the same.
    pub fn same_as(&self, other: &LanguageRoot) -> (res: bool)
        ensures
            res == (self@ == other@),
    {
        match (self, other) {
            (LanguageRoot::ImplicitScript(a), LanguageRoot::ImplicitScript(b)) => a.eq(b),
            (LanguageRoot::Scripted(a, s), LanguageRoot::Scripted(b, t)) => a.eq(b) && s.eq(t),
            _ => false,
        }
    }

    /// The text of this root, e.g. `en` or `sr-Cyrl`.
    pub fn to_text(&self) -> (res: String)
        ensures
            res@ == root_text(self@),
    {
        match self {
            LanguageRoot::ImplicitScript(l) => l.clone(),
            LanguageRoot::Scripted(l, s) => {
                let mut res = l.clone();
                res.append("-");
                res.append(s.as_str());
                res
            },
        }
    }

    /// The root of the locale a text denotes.
    pub fn from_str(text: &str) -> (res: Result<LanguageRoot, LingoraError>)
        ensures
            match locale_from_text(text@) {
                Ok(l) => res matches Ok(r) && r@ == root_of(l),
                Err(m) => res matches Err(e) && e@ == ErrorModel::InvalidLocale(m),
            },
    {
        match Locale::from_str(text) {
            Ok(l) => Ok(l.language_root()),
            Err(e) => Err(e),
        }
    }
}

/// The views of a sequence of locales.
pub open spec fn locales_view(s: Seq<Locale>) -> Seq<LocaleModel> {
    s.map_values(|l: Locale| l@)
}

/// Whether `l` is among `ls`.
pub fn contains_locale(ls: &Vec<Locale>, l: &Locale) -> (res: bool)
    ensures
        res == locales_view(ls@).contains(l@),
{
    let n = ls.len();
    let mut i: usize = 0;
    while i < n
        invariant
            n == ls.len(),
            i <= n,
            forall|j: int| 0 <= j < i ==> ls@[j]@ != l@,
        decreases n - i,
    {
        if ls[i].same_as(l) {
            assert(locales_view(ls@)[i as int] == l@);
            return true;
        }
        i += 1;
    }
    assert(!locales_view(ls@).contains(l@));
    false
}

/// Copies of a sequence of locales.
pub fn copy_locales(ls: &Vec<Locale>) -> (res: Vec<Locale>)
    ensures
        locales_view(res@) == locales_view(ls@),
{
    let mut res: Vec<Locale> = Vec::new();
    let n = ls.len();
    let mut i: usize = 0;
    while i < n
        invariant
            n == ls.len(),
            i <= n,
            res.len() == i,
            forall|j: int| 0 <= j < i ==> res@[j]@ == ls@[j]@,
        decreases n - i,
    {
        res.push(ls[i].copy());
        i += 1;
    }
    assert(locales_view(res@) =~= locales_view(ls@));
    res
}

/// The views of a sequence of roots.
pub open spec fn roots_view(s: Seq<LanguageRoot>) -> Seq<RootModel> {
    s.map_values(|r: LanguageRoot| r@)
}

/// Whether `r` is among `rs`.
pub fn contains_root(rs: &Vec<LanguageRoot>, r: &LanguageRoot) -> (res: bool)
    ensures
        res == roots_view(rs@).contains(r@),
{
    let n = rs.len();
    let mut i: usize = 0;
    while i < n
        invariant
            n == rs.len(),
            i <= n,
            forall|j: int| 0 <= j < i ==> rs@[j]@ != r@,
        decreases n - i,
    {
        if rs[i].same_as(r) {
            assert(roots_view(rs@)[i as int] == r@);
            return true;
        }
        i += 1;
    }
    assert(!roots_view(rs@).contains(r@));
    false
}

} // verus!
