//! The closed enumeration of content tags, and the statically declared
//! project cards shown on the home page.

use vstd::prelude::*;

verus! {

/// A content category label. The set of categories is closed by design:
/// new tags require extending this enumeration.
#[derive(Copy, Clone, PartialEq, Eq, Structural, Debug)]
pub enum ContentTag {
    Cpp,
    Rust,
    GodotEngine,
    Game,
    LanguageDevelopment,
    Compiler,
    BytecodeVm,
    Website,
    WebDevelopment,
    OpenSource,
}

/// The canonical order of all tags, derived from the single enumeration.
pub open spec fn spec_all_content_tags() -> Seq<ContentTag> {
    seq![
        ContentTag::Cpp,
        ContentTag::Rust,
        ContentTag::GodotEngine,
        ContentTag::Game,
        ContentTag::LanguageDevelopment,
        ContentTag::Compiler,
        ContentTag::BytecodeVm,
        ContentTag::Website,
        ContentTag::WebDevelopment,
        ContentTag::OpenSource,
    ]
}

/// Every tag of the closed enumeration, in canonical order.
pub fn all_content_tags() -> (r: Vec<ContentTag>)
    ensures
        r@ == spec_all_content_tags(),
{
    let mut v: Vec<ContentTag> = Vec::new();
    v.push(ContentTag::Cpp);
    v.push(ContentTag::Rust);
    v.push(ContentTag::GodotEngine);
    v.push(ContentTag::Game);
    v.push(ContentTag::LanguageDevelopment);
    v.push(ContentTag::Compiler);
    v.push(ContentTag::BytecodeVm);
    v.push(ContentTag::Website);
    v.push(ContentTag::WebDevelopment);
    v.push(ContentTag::OpenSource);
    proof {
        assert(v@ =~= spec_all_content_tags());
    }
    v
}

/// The stable identifier of a tag: the token written in frontmatter tag
/// lists and in filter query values.
pub open spec fn spec_tag_token(t: ContentTag) -> Seq<char> {
    match t {
        ContentTag::Cpp => "Cpp"@,
        ContentTag::Rust => "Rust"@,
        ContentTag::GodotEngine => "GodotEngine"@,
        ContentTag::Game => "Game"@,
        ContentTag::LanguageDevelopment => "LanguageDevelopment"@,
        ContentTag::Compiler => "Compiler"@,
        ContentTag::BytecodeVm => "BytecodeVm"@,
        ContentTag::Website => "Website"@,
        ContentTag::WebDevelopment => "WebDevelopment"@,
        ContentTag::OpenSource => "OpenSource"@,
    }
}

/// The stable token of a tag, as written in frontmatter and filter queries.
pub fn tag_token(t: ContentTag) -> (r: String)
    ensures
        r@ == spec_tag_token(t),
{
    match t {
        ContentTag::Cpp => "Cpp".to_owned(),
        ContentTag::Rust => "Rust".to_owned(),
        ContentTag::GodotEngine => "GodotEngine".to_owned(),
        ContentTag::Game => "Game".to_owned(),
        ContentTag::LanguageDevelopment => "LanguageDevelopment".to_owned(),
        ContentTag::Compiler => "Compiler".to_owned(),
        ContentTag::BytecodeVm => "BytecodeVm".to_owned(),
        ContentTag::Website => "Website".to_owned(),
        ContentTag::WebDevelopment => "WebDevelopment".to_owned(),
        ContentTag::OpenSource => "OpenSource".to_owned(),
    }
}

/// The tag whose token is `s`, if any.
pub open spec fn spec_tag_from_token(s: Seq<char>) -> Option<ContentTag> {
    if s == spec_tag_token(ContentTag::Cpp) {
        Some(ContentTag::Cpp)
    } else if s == spec_tag_token(ContentTag::Rust) {
        Some(ContentTag::Rust)
    } else if s == spec_tag_token(ContentTag::GodotEngine) {
        Some(ContentTag::GodotEngine)
    } else if s == spec_tag_token(ContentTag::Game) {
        Some(ContentTag::Game)
    } else if s == spec_tag_token(ContentTag::LanguageDevelopment) {
        Some(ContentTag::LanguageDevelopment)
    } else if s == spec_tag_token(ContentTag::Compiler) {
        Some(ContentTag::Compiler)
    } else if s == spec_tag_token(ContentTag::BytecodeVm) {
        Some(ContentTag::BytecodeVm)
    } else if s == spec_tag_token(ContentTag::Website) {
        Some(ContentTag::Website)
    } else if s == spec_tag_token(ContentTag::WebDevelopment) {
        Some(ContentTag::WebDevelopment)
    } else if s == spec_tag_token(ContentTag::OpenSource) {
        Some(ContentTag::OpenSource)
    } else {
        None
    }
}

/// Parses a tag token back into the closed enumeration. Returns `None` for
/// any string that is not the token of a tag.
pub fn tag_from_token(s: &str) -> (r: Option<ContentTag>)
    ensures
        r == spec_tag_from_token(s@),
{
    let o = s.to_owned();
    if o == "Cpp".to_owned() {
        Some(ContentTag::Cpp)
    } else if o == "Rust".to_owned() {
        Some(ContentTag::Rust)
    } else if o == "GodotEngine".to_owned() {
        Some(ContentTag::GodotEngine)
    } else if o == "Game".to_owned() {
        Some(ContentTag::Game)
    } else if o == "LanguageDevelopment".to_owned() {
        Some(ContentTag::LanguageDevelopment)
    } else if o == "Compiler".to_owned() {
        Some(ContentTag::Compiler)
    } else if o == "BytecodeVm".to_owned() {
        Some(ContentTag::BytecodeVm)
    } else if o == "Website".to_owned() {
        Some(ContentTag::Website)
    } else if o == "WebDevelopment".to_owned() {
        Some(ContentTag::WebDevelopment)
    } else if o == "OpenSource".to_owned() {
        Some(ContentTag::OpenSource)
    } else {
        None
    }
}

/// Tag tokens round-trip through the enumeration: parsing the token of any
/// tag yields that same tag.
pub proof fn lemma_tag_token_round_trip(t: ContentTag)
    ensures
        spec_tag_from_token(spec_tag_token(t)) == Some(t),
{
    reveal_strlit("Cpp");
    reveal_strlit("Rust");
    reveal_strlit("GodotEngine");
    reveal_strlit("Game");
    reveal_strlit("LanguageDevelopment");
    reveal_strlit("Compiler");
    reveal_strlit("BytecodeVm");
    reveal_strlit("Website");
    reveal_strlit("WebDevelopment");
    reveal_strlit("OpenSource");
    assert("Cpp"@.len() == 3);
    assert("Rust"@.len() == 4);
    assert("GodotEngine"@.len() == 11);
    assert("Game"@.len() == 4);
    assert("LanguageDevelopment"@.len() == 19);
    assert("Compiler"@.len() == 8);
    assert("BytecodeVm"@.len() == 10);
    assert("Website"@.len() == 7);
    assert("WebDevelopment"@.len() == 14);
    assert("OpenSource"@.len() == 10);
    assert("Rust"@[0] == 'R');
    assert("Game"@[0] == 'G');
    assert("BytecodeVm"@[0] == 'B');
    assert("OpenSource"@[0] == 'O');
}

/// The human-readable name of a tag, shown on tag chips.
pub open spec fn spec_tag_display(t: ContentTag) -> Seq<char> {
    match t {
        ContentTag::Cpp => "C++"@,
        ContentTag::Rust => "Rust"@,
        ContentTag::GodotEngine => "Godot Engine"@,
        ContentTag::Game => "Game"@,
        ContentTag::LanguageDevelopment => "Programming Language"@,
        ContentTag::Compiler => "Compiler"@,
        ContentTag::BytecodeVm => "Bytecode Virtual Machine"@,
        ContentTag::Website => "Website"@,
        ContentTag::WebDevelopment => "Web Development"@,
        ContentTag::OpenSource => "Open Source Project"@,
    }
}

/// The human-readable name of a tag.
pub fn tag_display(t: ContentTag) -> (r: String)
    ensures
        r@ == spec_tag_display(t),
{
    match t {
        ContentTag::Cpp => "C++".to_owned(),
        ContentTag::Rust => "Rust".to_owned(),
        ContentTag::GodotEngine => "Godot Engine".to_owned(),
        ContentTag::Game => "Game".to_owned(),
        ContentTag::LanguageDevelopment => "Programming Language".to_owned(),
        ContentTag::Compiler => "Compiler".to_owned(),
        ContentTag::BytecodeVm => "Bytecode Virtual Machine".to_owned(),
        ContentTag::Website => "Website".to_owned(),
        ContentTag::WebDevelopment => "Web Development".to_owned(),
        ContentTag::OpenSource => "Open Source Project".to_owned(),
    }
}

/// A project shown on the home page. The set of projects is fixed.
#[derive(Copy, Clone, PartialEq, Eq, Structural, Debug)]
pub enum Project {
    Jem,
    Strawberry,
    FmodGd4,
    LeptosMaterial,
    Ticks,
}

/// The human-readable name of a project.
pub open spec fn spec_project_display(p: Project) -> Seq<char> {
    match p {
        Project::Jem => "JEM"@,
        Project::Strawberry => "StrawberryLang"@,
        Project::FmodGd4 => "FMOD Integration for Godot 4"@,
        Project::LeptosMaterial => "Leptos Material Web Components"@,
        Project::Ticks => "Ticks"@,
    }
}

/// The human-readable name of a project.
pub fn project_display(p: Project) -> (r: String)
    ensures
        r@ == spec_project_display(p),
{
    match p {
        Project::Jem => "JEM".to_owned(),
        Project::Strawberry => "StrawberryLang".to_owned(),
        Project::FmodGd4 => "FMOD Integration for Godot 4".to_owned(),
        Project::LeptosMaterial => "Leptos Material Web Components".to_owned(),
        Project::Ticks => "Ticks".to_owned(),
    }
}

/// A statically declared project card: name, description and external link.
#[derive(Copy, Clone)]
pub struct ProjectInfo {
    pub project: Project,
    pub short_description: &'static str,
    pub learn_more_link: &'static str,
}

/// The tags of a project.
pub open spec fn spec_project_tags(p: Project) -> Seq<ContentTag> {
    match p {
        Project::Jem => seq![ContentTag::Cpp, ContentTag::GodotEngine, ContentTag::Game],
        Project::Strawberry => seq![
            ContentTag::Cpp,
            ContentTag::GodotEngine,
            ContentTag::LanguageDevelopment,
            ContentTag::BytecodeVm,
            ContentTag::Compiler,
        ],
        Project::FmodGd4 => seq![ContentTag::Cpp, ContentTag::GodotEngine, ContentTag::OpenSource],
        Project::LeptosMaterial => seq![
            ContentTag::Rust,
            ContentTag::WebDevelopment,
            ContentTag::OpenSource,
        ],
        Project::Ticks => seq![ContentTag::Rust, ContentTag::WebDevelopment, ContentTag::OpenSource],
    }
}

impl ProjectInfo {
    /// The tags attached to this project's card.
    pub fn get_tags(&self) -> (r: Vec<ContentTag>)
        ensures
            r@ == spec_project_tags(self.project),
    {
        let mut v: Vec<ContentTag> = Vec::new();
        match self.project {
            Project::Jem => {
                v.push(ContentTag::Cpp);
                v.push(ContentTag::GodotEngine);
                v.push(ContentTag::Game);
            },
            Project::Strawberry => {
                v.push(ContentTag::Cpp);
                v.push(ContentTag::GodotEngine);
                v.push(ContentTag::LanguageDevelopment);
                v.push(ContentTag::BytecodeVm);
                v.push(ContentTag::Compiler);
            },
            Project::FmodGd4 => {
                v.push(ContentTag::Cpp);
                v.push(ContentTag::GodotEngine);
                v.push(ContentTag::OpenSource);
            },
            Project::LeptosMaterial => {
                v.push(ContentTag::Rust);
                v.push(ContentTag::WebDevelopment);
                v.push(ContentTag::OpenSource);
            },
            Project::Ticks => {
                v.push(ContentTag::Rust);
                v.push(ContentTag::WebDevelopment);
                v.push(ContentTag::OpenSource);
            },
        }
        proof {
            assert(v@ =~= spec_project_tags(self.project));
        }
        v
    }
}

/// The five project cards, in display order.
pub fn all_projects() -> (r: Vec<ProjectInfo>)
    ensures
        r@.len() == 5,
        r@[0].project == Project::Jem,
        r@[1].project == Project::Strawberry,
        r@[2].project == Project::FmodGd4,
        r@[3].project == Project::LeptosMaterial,
        r@[4].project == Project::Ticks,
        r@[0].learn_more_link@ == ""@,
        r@[1].learn_more_link@ == ""@,
        r@[2].learn_more_link@ == "https://github.com/jordigulley/fmod_gd4"@,
        r@[3].learn_more_link@ == "https://github.com/jordigulley/leptos-material"@,
        r@[4].learn_more_link@ == "https://github.com/jordigulley/ticks"@,
        r@[0].short_description@
            == "A fast-paced RPG made with a custom version of the Godot Engine, written in C++."@,
        r@[1].short_description@
            == "A game programming language inspired by Rust's simple syntax and functional programming influences. Made for Godot."@,
        r@[2].short_description@
            == "C++ integration of the FMOD Sound System for the Godot Engine."@,
        r@[3].short_description@
            == "A Leptos component wrapper for Material Web Components (MWC), along with some extra components to fill in the gaps."@,
        r@[4].short_description@ == "Simple, ergonomic Rust wrapper for the TickTick Open API"@,
{
    let mut v: Vec<ProjectInfo> = Vec::new();
    v.push(ProjectInfo {
        project: Project::Jem,
        short_description: "A fast-paced RPG made with a custom version of the Godot Engine, written in C++.",
        learn_more_link: "",
    });
    v.push(ProjectInfo {
        project: Project::Strawberry,
        short_description: "A game programming language inspired by Rust's simple syntax and functional programming influences. Made for Godot.",
        learn_more_link: "",
    });
    v.push(ProjectInfo {
        project: Project::FmodGd4,
        short_description: "C++ integration of the FMOD Sound System for the Godot Engine.",
        learn_more_link: "https://github.com/jordigulley/fmod_gd4",
    });
    v.push(ProjectInfo {
        project: Project::LeptosMaterial,
        short_description: "A Leptos component wrapper for Material Web Components (MWC), along with some extra components to fill in the gaps.",
        learn_more_link: "https://github.com/jordigulley/leptos-material",
    });
    v.push(ProjectInfo {
        project: Project::Ticks,
        short_description: "Simple, ergonomic Rust wrapper for the TickTick Open API",
        learn_more_link: "https://github.com/jordigulley/ticks",
    });
    v
}

} // verus!
