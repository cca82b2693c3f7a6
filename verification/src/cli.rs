//! The commands of the program, and what they decide before any file is
//! touched: where the result is written.

use vstd::prelude::*;
use vstd::string::StringExecFns;

verus! {

/// What the program was asked to do on the command line.
#[derive(Debug)]
pub struct Cli {
    command: Commands,
}

/// The two commands.
#[allow(inconsistent_fields)]
#[derive(Debug)]
pub enum Commands {
    /// Encode payload in image.
    Encode {
        /// Target image to encode the payload into.
        target_image: String,
        /// Payload (file or string) to hide in the image.
        payload: String,
        /// Output file name (always saved as PNG).
        output: String,
    },
    /// Decode payload from an image.
    Decode {
        /// Encoded image to extract the payload from.
        encoded_image: String,
        /// Output file name for the extracted payload. The extension of
        /// the hidden file is added to it.
        output: Option<String>,
    },
}

/// The suffix of every encoded image.
pub open spec fn png_suffix() -> Seq<char> {
    ".png"@
}

/// The name under which an encoded image is saved: `output` itself where
/// it ends in `.png`, else `output` with `.png` added.
pub open spec fn png_path(output: Seq<char>) -> Seq<char> {
    if png_suffix().is_suffix_of(output) {
        output
    } else {
        output + png_suffix()
    }
}

/// The name under which a recovered payload is written. With an output
/// name it is that name and the extension of the recovered file name,
/// where it has one; without, it is the recovered file name in the current
/// directory.
pub open spec fn decoded_path(
    output_path: Option<Seq<char>>,
    file_name: Seq<char>,
    extension: Option<Seq<char>>,
) -> Seq<char> {
    match output_path {
        Some(output_path) => match extension {
            Some(extension) => output_path + "."@ + extension,
            None => output_path,
        },
        None => "./"@ + file_name,
    }
}

/// `str::ends_with` with a string as the pattern: whether the characters
/// of `suffix` are the last characters of `text`.
#[verifier::external_body]
fn ends_with(text: &str, suffix: &str) -> (found: bool)
    ensures
        found == suffix@.is_suffix_of(text@),
{
    text.ends_with(suffix)
}

/// The name under which an encoded image is saved: always one that ends in
/// `.png`.
pub fn png_output_path(output: String) -> (path: String)
    ensures
        path@ == png_path(output@),
        png_suffix().is_suffix_of(path@),
{
    if ends_with(output.as_str(), ".png") {
        output
    } else {
        let path = output.concat(".png");
        assert(path@.subrange(path@.len() - png_suffix().len(), path@.len() as int)
            =~= png_suffix());
        path
    }
}

/// The name under which a recovered payload is written: `output_path`
/// with the extension of the recovered file name, or `file_name` in the
/// current directory where no output name was given. `extension` is the
/// extension of `file_name`, where it has one.
pub fn decoded_output_path(
    output_path: Option<String>,
    file_name: &str,
    extension: Option<String>,
) -> (path: String)
    ensures
        path@ == decoded_path(
            match output_path {
                Some(output_path) => Some(output_path@),
                None => None,
            },
            file_name@,
            match extension {
                Some(extension) => Some(extension@),
                None => None,
            },
        ),
{
    match output_path {
        Some(output_path) => match extension {
            Some(extension) => output_path.concat(".").concat(extension.as_str()),
            None => output_path,
        },
        None => String::from_str("./").concat(file_name),
    }
}

impl Cli {
    /// The command line that asks for `command`.
    pub fn new(command: Commands) -> (cli: Cli)
        ensures
            cli.command() == command,
    {
        Cli { command }
    }

    /// The command that was asked for.
    pub closed spec fn command(self) -> Commands {
        self.command
    }

    /// The command that was asked for.
    pub fn into_command(self) -> (command: Commands)
        ensures
            command == self.command(),
    {
        self.command
    }
}

impl Commands {
    /// The command as it is carried out: an encoded image is always saved
    /// as PNG, so the output of `Encode` becomes a name that ends in `.png`.
    /// Nothing else changes.
    pub fn normalized(self) -> (command: Commands)
        ensures
            match self {
                Commands::Encode { target_image, payload, output } => {
                    &&& command matches Commands::Encode {
                        target_image: same_image,
                        payload: same_payload,
                        output: path,
                    }
                    &&& same_image == target_image
                    &&& same_payload == payload
                    &&& path@ == png_path(output@)
                },
                Commands::Decode { .. } => command == self,
            },
    {
        match self {
            Commands::Encode { target_image, payload, output } => Commands::Encode {
                target_image,
                payload,
                output: png_output_path(output),
            },
            Commands::Decode { encoded_image, output } => Commands::Decode {
                encoded_image,
                output,
            },
        }
    }
}

} // verus!
