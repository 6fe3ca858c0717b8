//! New projects: where their files go.
use vstd::prelude::*;
use vstd::string::*;

verus! {

/// The format of a configuration file.
#[derive(Clone, Copy, Debug, PartialEq, Eq)]
pub enum FileFormat {
    GraphQl,
    Json,
    Yml,
}

/// The formats by the names that they are offered under.
pub open spec fn format_name(format: FileFormat) -> Seq<char> {
    match format {
        FileFormat::GraphQl => "GraphQL"@,
        FileFormat::Json => "JSON"@,
        FileFormat::Yml => "YML"@,
    }
}

impl FileFormat {
    /// The name that the format is offered under.
    pub fn name(self) -> (res: &'static str)
        ensures
            res@ == format_name(self),
    {
        match self {
            FileFormat::GraphQl => "GraphQL",
            FileFormat::Json => "JSON",
            FileFormat::Yml => "YML",
        }
    }

    /// The format that is offered under a name.
    pub fn from_name(name: &str) -> (res: Option<FileFormat>)
        ensures
            match res {
                Some(format) => name@ == format_name(format),
                None => forall|format: FileFormat| name@ != #[trigger] format_name(format),
            },
    {
        if crate::text::same(name, "GraphQL") {
            Some(FileFormat::GraphQl)
        } else if crate::text::same(name, "JSON") {
            Some(FileFormat::Json)
        } else if crate::text::same(name, "YML") {
            Some(FileFormat::Yml)
        } else {
            None
        }
    }
}

/// The directory of the configuration file within a project, and its name.
pub open spec fn config_place(format: FileFormat) -> (Seq<char>, Seq<char>) {
    match format {
        FileFormat::GraphQl => ("config"@, ".tailcallrc.graphql"@),
        FileFormat::Json => ("config"@, ".tailcallrc.schema.json"@),
        FileFormat::Yml => ("."@, ".graphqlrc.yml"@),
    }
}

/// The directory of the configuration file within a project, and its name.
pub fn config_location(format: FileFormat) -> (res: (&'static str, &'static str))
    ensures
        (res.0@, res.1@) == config_place(format),
{
    match format {
        FileFormat::GraphQl => ("config", ".tailcallrc.graphql"),
        FileFormat::Json => ("config", ".tailcallrc.schema.json"),
        FileFormat::Yml => (".", ".graphqlrc.yml"),
    }
}

/// The file that holds what the configuration file of a new project starts with.
pub open spec fn content_place(format: FileFormat) -> Seq<char> {
    match format {
        FileFormat::GraphQl => "generated/.tailcallrc.graphql"@,
        FileFormat::Json => "generated/.tailcallrc.schema.json"@,
        FileFormat::Yml => ".graphqlrc.yml"@,
    }
}

/// The file that holds what the configuration file of a new project starts with.
pub fn initial_content(format: FileFormat) -> (res: &'static str)
    ensures
        res@ == content_place(format),
{
    match format {
        FileFormat::GraphQl => "generated/.tailcallrc.graphql",
        FileFormat::Json => "generated/.tailcallrc.schema.json",
        FileFormat::Yml => ".graphqlrc.yml",
    }
}

/// The lines that announce what will be made for a project.
pub fn summary(project_name: &str, format: FileFormat) -> (res: (String, String, String))
    ensures
        res.0@ == "Creating the following project structure:"@,
        res.1@ == "- "@ + project_name@ + "/src/main.rs"@,
        res.2@ == "- "@ + project_name@ + "/"@ + config_place(format).0 + "/"@ + config_place(format).1,
{
    let (directory, file) = config_location(format);
    let mut source = "- ".to_string();
    source.append(project_name);
    source.append("/src/main.rs");
    let mut config = "- ".to_string();
    config.append(project_name);
    config.append("/");
    config.append(directory);
    config.append("/");
    config.append(file);
    ("Creating the following project structure:".to_string(), source, config)
}

/// A configuration is kept in the directory for configurations, but for the one in YML, which stands
/// at the top. It starts with what the file of its name holds, which is generated but for that one.
pub proof fn law_files_of_a_format(format: FileFormat)
    ensures
        config_place(format).0 == if format is Yml {
            "."@
        } else {
            "config"@
        },
        config_place(format).1 == match format {
            FileFormat::GraphQl => ".tailcallrc.graphql"@,
            FileFormat::Json => ".tailcallrc.schema.json"@,
            FileFormat::Yml => ".graphqlrc.yml"@,
        },
        content_place(format) == if format is Yml {
            config_place(format).1
        } else {
            "generated/"@ + config_place(format).1
        },
{
    reveal_strlit("generated/");
    reveal_strlit(".tailcallrc.graphql");
    reveal_strlit(".tailcallrc.schema.json");
    reveal_strlit("generated/.tailcallrc.graphql");
    reveal_strlit("generated/.tailcallrc.schema.json");
    assert("generated/.tailcallrc.graphql"@ =~= "generated/"@ + ".tailcallrc.graphql"@);
    assert("generated/.tailcallrc.schema.json"@ =~= "generated/"@ + ".tailcallrc.schema.json"@);
}

/// A format is offered under its own name, and under no other's.
pub proof fn law_formats_have_their_names(format: FileFormat, other: FileFormat)
    ensures
        format_name(format) == match format {
            FileFormat::GraphQl => "GraphQL"@,
            FileFormat::Json => "JSON"@,
            FileFormat::Yml => "YML"@,
        },
        format_name(format) == format_name(other) ==> format == other,
{
    reveal_strlit("GraphQL");
    reveal_strlit("JSON");
    reveal_strlit("YML");
    assert("GraphQL"@[0] == 'G');
    assert("JSON"@[0] == 'J');
    assert("YML"@[0] == 'Y');
}

} // verus!
