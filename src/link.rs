use vstd::prelude::*;
use vstd::string::*;

use crate::url::Url;
use crate::version::Identity;

verus! {

/// One element that a link imports, with its optional local alias.
#[derive(Debug)]
pub struct Import {
    pub element: String,
    pub is_directive: bool,
    pub alias: Option<String>,
}

/// A schema's import of one version of a specification.
#[derive(Debug)]
pub struct Link {
    pub url: Url,
    /// The prefix under which the specification's elements are named, if renamed.
    pub spec_alias: Option<String>,
    pub imports: Vec<Import>,
}

/// The links of one schema, at most one per identity.
#[derive(Debug)]
pub struct LinksMetadata {
    pub links: Vec<Link>,
}

/// The first import of `name` of the given kind.
pub open spec fn find_import(imports: Seq<Import>, name: Seq<char>, is_directive: bool) -> Option<
    Import,
>
    decreases imports.len(),
{
    if imports.len() == 0 {
        None
    } else if imports[0].element@ == name && imports[0].is_directive == is_directive {
        Some(imports[0])
    } else {
        find_import(imports.drop_first(), name, is_directive)
    }
}

pub open spec fn imported_name(imp: Import, name: Seq<char>) -> Seq<char> {
    match imp.alias {
        Some(a) => a@,
        None => name,
    }
}

/// The prefix of the specification's elements in the schema.
pub open spec fn spec_prefix(l: Link) -> Seq<char> {
    match l.spec_alias {
        Some(a) => a@,
        None => l.url.identity.name@,
    }
}

pub open spec fn qualified(prefix: Seq<char>, name: Seq<char>) -> Seq<char> {
    prefix + seq!['_', '_'] + name
}

/// The name of the specification's directive `name` in a schema that holds `l`:
/// its explicit rename, else the name itself where it is imported or where it is
/// the specification's own name, else the name qualified by the prefix.
pub open spec fn link_directive_name(l: Link, name: Seq<char>) -> Seq<char> {
    match find_import(l.imports@, name, true) {
        Some(imp) => imported_name(imp, name),
        None => if name == l.url.identity.name@ {
            name
        } else {
            qualified(spec_prefix(l), name)
        },
    }
}

/// The name of the specification's type `name` in a schema that holds `l`.
pub open spec fn link_type_name(l: Link, name: Seq<char>) -> Seq<char> {
    match find_import(l.imports@, name, false) {
        Some(imp) => imported_name(imp, name),
        None => qualified(spec_prefix(l), name),
    }
}

/// The first link of `links` to the identity `id`.
pub open spec fn link_for(links: Seq<Link>, id: (Seq<char>, Seq<char>)) -> Option<Link>
    decreases links.len(),
{
    if links.len() == 0 {
        None
    } else if links[0].url.identity@ == id {
        Some(links[0])
    } else {
        link_for(links.drop_first(), id)
    }
}

impl Import {
    pub fn new(element: &str, is_directive: bool, alias: Option<&str>) -> (r: Import)
        ensures
            r.element@ == element@,
            r.is_directive == is_directive,
            r.alias is Some == alias is Some,
            alias is Some ==> r.alias->0@ == alias->0@,
    {
        let alias = match alias {
            Some(a) => Some(String::from_str(a)),
            None => None,
        };
        Import { element: String::from_str(element), is_directive, alias }
    }
}

impl Link {
    fn find_import(&self, name: &String, is_directive: bool) -> (r: Option<&Import>)
        ensures
            match find_import(self.imports@, name@, is_directive) {
                Some(imp) => r is Some && *r->0 == imp,
                None => r is None,
            },
    {
        let mut i: usize = 0;
        assert(self.imports@.subrange(0, self.imports@.len() as int) =~= self.imports@);
        while i < self.imports.len()
            invariant
                i <= self.imports@.len(),
                find_import(self.imports@, name@, is_directive) == find_import(
                    self.imports@.subrange(i as int, self.imports@.len() as int),
                    name@,
                    is_directive,
                ),
            decreases self.imports@.len() - i,
        {
            let ghost rest = self.imports@.subrange(i as int, self.imports@.len() as int);
            assert(rest.drop_first() =~= self.imports@.subrange(
                i as int + 1,
                self.imports@.len() as int,
            ));
            let imp = &self.imports[i];
            if imp.element == *name && imp.is_directive == is_directive {
                return Some(imp);
            }
            i = i + 1;
        }
        None
    }

    fn prefixed(&self, name: &String) -> (r: String)
        ensures
            r@ == qualified(spec_prefix(*self), name@),
    {
        proof {
            reveal_strlit("__");
        }
        let mut r = match &self.spec_alias {
            Some(a) => a.clone(),
            None => self.url.identity.name.clone(),
        };
        r.append("__");
        r.append(name.as_str());
        r
    }

    /// The name that the specification's directive `name` carries in the schema.
    pub fn directive_name_in_schema(&self, name: &String) -> (r: String)
        ensures
            r@ == link_directive_name(*self, name@),
    {
        match self.find_import(name, true) {
            Some(imp) => match &imp.alias {
                Some(a) => a.clone(),
                None => name.clone(),
            },
            None => if *name == self.url.identity.name {
                name.clone()
            } else {
                self.prefixed(name)
            },
        }
    }

    /// The name that the specification's type `name` carries in the schema.
    pub fn type_name_in_schema(&self, name: &String) -> (r: String)
        ensures
            r@ == link_type_name(*self, name@),
    {
        match self.find_import(name, false) {
            Some(imp) => match &imp.alias {
                Some(a) => a.clone(),
                None => name.clone(),
            },
            None => self.prefixed(name),
        }
    }
}

impl LinksMetadata {
    /// The link to the specification `id`, if the schema has one.
    pub fn for_identity(&self, id: &Identity) -> (r: Option<&Link>)
        ensures
            match link_for(self.links@, id@) {
                Some(l) => r is Some && *r->0 == l,
                None => r is None,
            },
    {
        let mut i: usize = 0;
        assert(self.links@.subrange(0, self.links@.len() as int) =~= self.links@);
        while i < self.links.len()
            invariant
                i <= self.links@.len(),
                link_for(self.links@, id@) == link_for(
                    self.links@.subrange(i as int, self.links@.len() as int),
                    id@,
                ),
            decreases self.links@.len() - i,
        {
            let ghost rest = self.links@.subrange(i as int, self.links@.len() as int);
            assert(rest.drop_first() =~= self.links@.subrange(i as int + 1, self.links@.len() as int));
            if self.links[i].url.identity.same_as(id) {
                return Some(&self.links[i]);
            }
            i = i + 1;
        }
        None
    }
}

} // verus!
