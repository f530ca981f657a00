//! The data that the service moves around: posts, tags and their counts.

use vstd::prelude::*;

use crate::text::text_eq;

verus! {

/// A point in time: whole seconds since the Unix epoch and the nanoseconds on top.
#[derive(Clone, Copy, Debug, PartialEq, Eq, Structural)]
pub struct Stamp {
    pub secs: i64,
    pub nanos: u32,
}

/// The tag groups that are stored and scored.
#[derive(Clone, Copy, Debug, PartialEq, Eq, Structural)]
pub enum TagGroup {
    Artist,
    Character,
    Copyright,
    General,
    Lore,
    Species,
    Meta,
}

impl TagGroup {
    pub open spec fn name(self) -> Seq<char> {
        match self {
            TagGroup::Artist => "artist"@,
            TagGroup::Character => "character"@,
            TagGroup::Copyright => "copyright"@,
            TagGroup::General => "general"@,
            TagGroup::Lore => "lore"@,
            TagGroup::Species => "species"@,
            TagGroup::Meta => "meta"@,
        }
    }

    pub fn label(self) -> (r: &'static str)
        ensures
            r@ == self.name(),
    {
        match self {
            TagGroup::Artist => "artist",
            TagGroup::Character => "character",
            TagGroup::Copyright => "copyright",
            TagGroup::General => "general",
            TagGroup::Lore => "lore",
            TagGroup::Species => "species",
            TagGroup::Meta => "meta",
        }
    }

    /// The group of the given name.
    pub fn from_label(s: &str) -> (r: Option<TagGroup>)
        ensures
            r == group_named(s@),
    {
        proof {
            lemma_group_names();
        }
        if text_eq(s, "artist") {
            Some(TagGroup::Artist)
        } else if text_eq(s, "character") {
            Some(TagGroup::Character)
        } else if text_eq(s, "copyright") {
            Some(TagGroup::Copyright)
        } else if text_eq(s, "general") {
            Some(TagGroup::General)
        } else if text_eq(s, "lore") {
            Some(TagGroup::Lore)
        } else if text_eq(s, "species") {
            Some(TagGroup::Species)
        } else if text_eq(s, "meta") {
            Some(TagGroup::Meta)
        } else {
            None
        }
    }
}

/// The group of the given name, if there is one.
pub open spec fn group_named(s: Seq<char>) -> Option<TagGroup> {
    if s == "artist"@ {
        Some(TagGroup::Artist)
    } else if s == "character"@ {
        Some(TagGroup::Character)
    } else if s == "copyright"@ {
        Some(TagGroup::Copyright)
    } else if s == "general"@ {
        Some(TagGroup::General)
    } else if s == "lore"@ {
        Some(TagGroup::Lore)
    } else if s == "species"@ {
        Some(TagGroup::Species)
    } else if s == "meta"@ {
        Some(TagGroup::Meta)
    } else {
        None
    }
}

proof fn lemma_group_names()
    ensures
        forall|g: TagGroup| #[trigger] group_named(g.name()) == Some(g),
{
    reveal_strlit("artist");
    reveal_strlit("character");
    reveal_strlit("copyright");
    reveal_strlit("general");
    reveal_strlit("lore");
    reveal_strlit("species");
    reveal_strlit("meta");
    assert("artist"@.len() == 6 && "character"@.len() == 9 && "copyright"@.len() == 9
        && "general"@.len() == 7 && "lore"@.len() == 4 && "species"@.len() == 7 && "meta"@.len()
        == 4);
    assert("character"@[1] == 'h' && "copyright"@[1] == 'o');
    assert("general"@[0] == 'g' && "species"@[0] == 's');
    assert("lore"@[0] == 'l' && "meta"@[0] == 'm');
}

/// A group is found under its own name.
pub proof fn law_group_round_trip(g: TagGroup)
    ensures
        group_named(g.name()) == Some(g),
{
    lemma_group_names();
}

/// The tags of a post, by group.
#[derive(Debug)]
pub struct Tags {
    pub general: Vec<String>,
    pub artist: Vec<String>,
    pub copyright: Vec<String>,
    pub character: Vec<String>,
    pub species: Vec<String>,
    pub invalid: Vec<String>,
    pub meta: Vec<String>,
    pub lore: Vec<String>,
    pub contributor: Vec<String>,
}

impl Tags {
    pub open spec fn group(&self, g: TagGroup) -> Seq<String> {
        match g {
            TagGroup::Artist => self.artist@,
            TagGroup::Character => self.character@,
            TagGroup::Copyright => self.copyright@,
            TagGroup::General => self.general@,
            TagGroup::Lore => self.lore@,
            TagGroup::Species => self.species@,
            TagGroup::Meta => self.meta@,
        }
    }

    /// No tags at all.
    pub open spec fn is_blank(&self) -> bool {
        &&& forall|g: TagGroup| (#[trigger] self.group(g)) == Seq::<String>::empty()
        &&& self.invalid@.len() == 0
        &&& self.contributor@.len() == 0
    }

    pub fn blank() -> (r: Tags)
        ensures
            r.is_blank(),
    {
        Tags {
            general: Vec::new(),
            artist: Vec::new(),
            copyright: Vec::new(),
            character: Vec::new(),
            species: Vec::new(),
            invalid: Vec::new(),
            meta: Vec::new(),
            lore: Vec::new(),
            contributor: Vec::new(),
        }
    }

    /// Adds a tag at the end of a group.
    pub fn push_tag(&mut self, g: TagGroup, name: String)
        ensures
            final(self).group(g) == old(self).group(g).push(name),
            forall|h: TagGroup| h != g ==> (#[trigger] final(self).group(h)) == old(self).group(h),
            final(self).invalid@ == old(self).invalid@,
            final(self).contributor@ == old(self).contributor@,
    {
        match g {
            TagGroup::Artist => self.artist.push(name),
            TagGroup::Character => self.character.push(name),
            TagGroup::Copyright => self.copyright.push(name),
            TagGroup::General => self.general.push(name),
            TagGroup::Lore => self.lore.push(name),
            TagGroup::Species => self.species.push(name),
            TagGroup::Meta => self.meta.push(name),
        }
    }
}

/// Content rating of a post.
#[derive(Clone, Copy, Debug, PartialEq, Eq, Structural)]
pub enum Rating {
    S,
    Q,
    E,
}

/// The rating that a stored letter stands for.
pub open spec fn rating_named(s: Seq<char>) -> Option<Rating> {
    if s == "s"@ {
        Some(Rating::S)
    } else if s == "q"@ {
        Some(Rating::Q)
    } else if s == "e"@ {
        Some(Rating::E)
    } else {
        None
    }
}

impl Rating {
    pub open spec fn name(self) -> Seq<char> {
        match self {
            Rating::S => "s"@,
            Rating::Q => "q"@,
            Rating::E => "e"@,
        }
    }

    pub fn label(self) -> (r: &'static str)
        ensures
            r@ == self.name(),
    {
        match self {
            Rating::S => "s",
            Rating::Q => "q",
            Rating::E => "e",
        }
    }

    pub fn from_label(s: &str) -> (r: Option<Rating>)
        ensures
            r == rating_named(s@),
    {
        if text_eq(s, "s") {
            Some(Rating::S)
        } else if text_eq(s, "q") {
            Some(Rating::Q)
        } else if text_eq(s, "e") {
            Some(Rating::E)
        } else {
            None
        }
    }
}

/// A stored rating letter reads back as the rating it was written for.
pub proof fn law_rating_round_trip(r: Rating)
    ensures
        rating_named(r.name()) == Some(r),
{
    reveal_strlit("s");
    reveal_strlit("q");
    reveal_strlit("e");
    assert("s"@[0] == 's' && "q"@[0] == 'q' && "e"@[0] == 'e');
}

#[derive(Debug)]
pub struct FileInfo {
    pub width: i64,
    pub height: i64,
    pub ext: Option<String>,
    pub size: i64,
    pub md5: Option<String>,
    pub url: Option<String>,
}

#[derive(Debug)]
pub struct Preview {
    pub width: i64,
    pub height: i64,
    pub url: Option<String>,
}

#[derive(Debug)]
pub struct Sample {
    pub has: Option<bool>,
    pub width: Option<i64>,
    pub height: Option<i64>,
    pub url: Option<String>,
}

#[derive(Clone, Copy, Debug, PartialEq, Eq, Structural)]
pub struct Score {
    pub up: i64,
    pub down: i64,
    pub total: i64,
}

/// A post. The duration travels as the bit pattern of its floating-point value.
#[derive(Debug)]
pub struct Post {
    pub id: i64,
    pub created_at: Stamp,
    pub updated_at: Stamp,
    pub file: Option<FileInfo>,
    pub preview: Option<Preview>,
    pub sample: Option<Sample>,
    pub score: Score,
    pub tags: Tags,
    pub rating: Rating,
    pub fav_count: i64,
    pub deleted: bool,
    pub has_children: bool,
    pub has_notes: bool,
    pub comment_count: i64,
    pub uploader_id: i64,
    pub duration_bits: Option<u64>,
}

/// How often an account carries a tag.
#[derive(Debug)]
pub struct TagCount {
    pub name: String,
    pub group_type: String,
    pub count: i64,
}

/// A value bound to a database statement. A real number travels as the bit
/// pattern of its floating-point value.
#[derive(Debug)]
pub enum SqlValue {
    Null,
    Integer(i64),
    Real(u64),
    Text(String),
}

/// What a bound value stands for.
pub enum SqlCell {
    Null,
    Integer(i64),
    Real(u64),
    Text(Seq<char>),
}

impl SqlValue {
    pub open spec fn cell(&self) -> SqlCell {
        match *self {
            SqlValue::Null => SqlCell::Null,
            SqlValue::Integer(n) => SqlCell::Integer(n),
            SqlValue::Real(b) => SqlCell::Real(b),
            SqlValue::Text(t) => SqlCell::Text(t@),
        }
    }
}

/// What a list of bound values stands for.
pub open spec fn cells(v: Seq<SqlValue>) -> Seq<SqlCell> {
    v.map_values(|x: SqlValue| x.cell())
}

/// A text names a group exactly where it is the name of that group.
pub proof fn law_only_its_name_gives_a_group(s: Seq<char>, g: TagGroup)
    ensures
        group_named(s) == Some(g) <==> s == g.name(),
{
    law_group_round_trip(g);
}

/// A letter gives a rating exactly where it is the letter of that rating.
pub proof fn law_only_its_letter_gives_a_rating(s: Seq<char>, r: Rating)
    ensures
        rating_named(s) == Some(r) <==> s == r.name(),
{
    law_rating_round_trip(r);
}

/// Every group has the tags of the field that bears its name.
pub proof fn law_groups_are_the_fields(t: Tags, g: TagGroup)
    ensures
        g.name() == "artist"@ ==> t.group(g) == t.artist@,
        g.name() == "character"@ ==> t.group(g) == t.character@,
        g.name() == "copyright"@ ==> t.group(g) == t.copyright@,
        g.name() == "general"@ ==> t.group(g) == t.general@,
        g.name() == "lore"@ ==> t.group(g) == t.lore@,
        g.name() == "species"@ ==> t.group(g) == t.species@,
        g.name() == "meta"@ ==> t.group(g) == t.meta@,
        g.name() == "artist"@ || g.name() == "character"@ || g.name() == "copyright"@ || g.name()
            == "general"@ || g.name() == "lore"@ || g.name() == "species"@ || g.name() == "meta"@,
        g == TagGroup::Artist <==> g.name() == "artist"@,
        g == TagGroup::Character <==> g.name() == "character"@,
        g == TagGroup::Copyright <==> g.name() == "copyright"@,
        g == TagGroup::General <==> g.name() == "general"@,
        g == TagGroup::Lore <==> g.name() == "lore"@,
        g == TagGroup::Species <==> g.name() == "species"@,
        g == TagGroup::Meta <==> g.name() == "meta"@,
{
    lemma_group_names();
    assert(group_named(TagGroup::Artist.name()) == Some(TagGroup::Artist));
    assert(group_named(TagGroup::Character.name()) == Some(TagGroup::Character));
    assert(group_named(TagGroup::Copyright.name()) == Some(TagGroup::Copyright));
    assert(group_named(TagGroup::General.name()) == Some(TagGroup::General));
    assert(group_named(TagGroup::Lore.name()) == Some(TagGroup::Lore));
    assert(group_named(TagGroup::Species.name()) == Some(TagGroup::Species));
    assert(group_named(TagGroup::Meta.name()) == Some(TagGroup::Meta));
    assert(group_named(g.name()) == Some(g));
}

} // verus!
