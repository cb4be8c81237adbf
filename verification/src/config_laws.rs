//! What the settings come to, in terms of what the command line, the environment and the file hold.

use vstd::prelude::*;
use crate::config::{combined, default_settings, objection, Args, Config, ConfigError, EnvConfig};
use crate::config::{FileConfig, Settings};
use crate::digits::{is_number, law_numbers_are_read, law_numerals_are_read};
use crate::text::decimal;
use crate::text_laws::{bare, comma_list, is_letter, law_lists_are_read, law_yes};
use crate::written::decimal_text;

verus! {

/// Whether a variable is set to a text.
pub open spec fn is_text(o: Option<String>, s: Seq<char>) -> bool {
    o matches Some(v) && v@ == s
}

/// Whether a variable holds no number that is at most `max`, or is not set.
pub open spec fn no_number(o: Option<String>, max: nat) -> bool {
    o matches Some(v) ==> forall|n: nat| n <= max ==> !(#[trigger] is_number(v@, n))
}

/// Whether a variable says yes.
pub open spec fn says_yes(s: Seq<char>) -> bool {
    s == seq!['1'] || (s.len() == 4 && is_letter(s[0], 't', 'T') && is_letter(s[1], 'r', 'R')
        && is_letter(s[2], 'u', 'U') && is_letter(s[3], 'e', 'E'))
}

/// A number between the least and the greatest size of a buffer is the size; any other is brought to
/// the nearer of the two.
pub open spec fn is_buffer_size(size: usize, wanted: nat) -> bool {
    &&& 1024 <= size <= 65536
    &&& 1024 <= wanted <= 65536 ==> size == wanted
    &&& wanted < 1024 ==> size == 1024
    &&& wanted > 65536 ==> size == 65536
}

/// Where the command line does not set a number and the variable for it holds one, with or without
/// a `+` or zeros before it, that number is used, whatever it is and whatever the file says.
pub proof fn law_numbers_of_the_environment(file: FileConfig, env: EnvConfig, args: Args, n: nat)
    ensures
        ({
            let c = combined(file, env, args);
            &&& args.max_connections is None && n <= usize::MAX && (env.max_connections matches Some(
                v,
            ) && is_number(v@, n)) ==> c.max_connections == n
            &&& args.buffer_size is None && n <= usize::MAX && (env.buffer_size matches Some(v)
                && is_number(v@, n)) ==> is_buffer_size(c.buffer_size, n)
            &&& args.handshake_timeout is None && n <= u64::MAX && (
            env.handshake_timeout matches Some(v) && is_number(v@, n)) ==> c.handshake_timeout_secs
                == n
            &&& args.idle_timeout is None && n <= u64::MAX && (env.idle_timeout matches Some(v)
                && is_number(v@, n)) ==> c.idle_timeout_secs == n
        }),
{
    if let Some(v) = env.max_connections {
        law_numbers_are_read(v@, n, usize::MAX as nat);
    }
    if let Some(v) = env.buffer_size {
        law_numbers_are_read(v@, n, usize::MAX as nat);
    }
    if let Some(v) = env.handshake_timeout {
        law_numbers_are_read(v@, n, u64::MAX as nat);
    }
    if let Some(v) = env.idle_timeout {
        law_numbers_are_read(v@, n, u64::MAX as nat);
    }
}

/// The same for the digits of a number.
pub proof fn law_digits_of_the_environment(file: FileConfig, env: EnvConfig, args: Args, n: nat)
    ensures
        ({
            let c = combined(file, env, args);
            &&& args.max_connections is None && n <= usize::MAX && is_text(
                env.max_connections,
                decimal_text(n),
            ) ==> c.max_connections == n
            &&& args.buffer_size is None && n <= usize::MAX && is_text(
                env.buffer_size,
                decimal_text(n),
            ) ==> is_buffer_size(c.buffer_size, n)
            &&& args.handshake_timeout is None && n <= u64::MAX && is_text(
                env.handshake_timeout,
                decimal_text(n),
            ) ==> c.handshake_timeout_secs == n
            &&& args.idle_timeout is None && n <= u64::MAX && is_text(
                env.idle_timeout,
                decimal_text(n),
            ) ==> c.idle_timeout_secs == n
        }),
{
    law_numerals_are_read(n, u64::MAX as nat);
    law_numbers_of_the_environment(file, env, args, n);
}

proof fn lemma_no_number(s: Seq<char>, max: nat)
    requires
        forall|n: nat| n <= max ==> !(#[trigger] is_number(s, n)),
    ensures
        decimal(s, max) is None,
{
    if decimal(s, max) is Some {
        law_numbers_are_read(s, decimal(s, max)->0, max);
    }
}

/// Numbers come from the file where the command line does not set them and the variable for them
/// holds no number, or too large a one; and where the file does not set them either, they are 4096
/// for the buffer, no limit of connections, 10 seconds for the handshake, and no limit of being
/// idle.
pub proof fn law_numbers_of_the_file(file: FileConfig, env: EnvConfig, args: Args)
    ensures
        ({
            let c = combined(file, env, args);
            &&& args.max_connections is None && no_number(env.max_connections, usize::MAX as nat)
                ==> c.max_connections == (match file.max_connections {
                Some(v) => v,
                None => 0,
            })
            &&& args.buffer_size is None && no_number(env.buffer_size, usize::MAX as nat)
                ==> is_buffer_size(
                c.buffer_size,
                match file.buffer_size {
                    Some(v) => v as nat,
                    None => 4096,
                },
            )
            &&& args.handshake_timeout is None && no_number(env.handshake_timeout, u64::MAX as nat)
                ==> c.handshake_timeout_secs == (match file.handshake_timeout {
                Some(v) => v,
                None => 10,
            })
            &&& args.idle_timeout is None && no_number(env.idle_timeout, u64::MAX as nat)
                ==> c.idle_timeout_secs == (match file.idle_timeout {
                Some(v) => v,
                None => 0,
            })
        }),
{
    if let Some(v) = env.max_connections {
        if no_number(env.max_connections, usize::MAX as nat) {
            lemma_no_number(v@, usize::MAX as nat);
        }
    }
    if let Some(v) = env.buffer_size {
        if no_number(env.buffer_size, usize::MAX as nat) {
            lemma_no_number(v@, usize::MAX as nat);
        }
    }
    if let Some(v) = env.handshake_timeout {
        if no_number(env.handshake_timeout, u64::MAX as nat) {
            lemma_no_number(v@, u64::MAX as nat);
        }
    }
    if let Some(v) = env.idle_timeout {
        if no_number(env.idle_timeout, u64::MAX as nat) {
            lemma_no_number(v@, u64::MAX as nat);
        }
    }
}

/// The size of the buffer that the command line sets holds, within its limits.
pub proof fn law_buffer_of_the_command_line(file: FileConfig, env: EnvConfig, args: Args)
    ensures
        args.buffer_size matches Some(v) ==> is_buffer_size(
            combined(file, env, args).buffer_size,
            v as nat,
        ),
{
}

/// What says yes or no is taken from the command line where it says so, else from the variable where
/// it is set, which says yes by `1` or by `true` in letters of either case and no by anything else,
/// else from the file, and is no where nothing is set.
pub proof fn law_yes_or_no(file: FileConfig, env: EnvConfig, args: Args)
    ensures
        ({
            let c = combined(file, env, args);
            &&& c.random_egress_ipv6 == (match args.random_ipv6 {
                Some(v) => v,
                None => match env.random_ipv6 {
                    Some(v) => says_yes(v@),
                    None => file.random_egress_ipv6 == Some(true),
                },
            })
            &&& c.force_ipv6 == (match args.force_ipv6 {
                Some(v) => v,
                None => match env.force_ipv6 {
                    Some(v) => says_yes(v@),
                    None => file.force_ipv6 == Some(true),
                },
            })
        }),
{
    if let Some(v) = env.random_ipv6 {
        law_yes(v@);
    }
    if let Some(v) = env.force_ipv6 {
        law_yes(v@);
    }
}

/// Texts are taken from the command line where it sets them, else from the variable, else from the
/// file, letter by letter as they are there. User name and password are taken each on its own.
pub proof fn law_texts(file: FileConfig, env: EnvConfig, args: Args)
    ensures
        ({
            let c = combined(file, env, args);
            &&& c.bind_addr == (match (args.bind, env.bind, file.bind_addr) {
                (Some(v), _, _) => v@,
                (None, Some(v), _) => v@,
                (None, None, Some(v)) => v@,
                (None, None, None) => "0.0.0.0:1080"@,
            })
            &&& c.log_level == (match (args.log_level, env.log, file.log_level) {
                (Some(v), _, _) => v@,
                (None, Some(v), _) => v@,
                (None, None, Some(v)) => v@,
                (None, None, None) => "info"@,
            })
            &&& c.username == (match (args.username, env.username, file.username) {
                (Some(v), _, _) => Some(v@),
                (None, Some(v), _) => Some(v@),
                (None, None, Some(v)) => Some(v@),
                (None, None, None) => None,
            })
            &&& c.password == (match (args.password, env.password, file.password) {
                (Some(v), _, _) => Some(v@),
                (None, Some(v), _) => Some(v@),
                (None, None, Some(v)) => Some(v@),
                (None, None, None) => None,
            })
        }),
{
}

/// The blocks are those of the command line where it gives any, one text for each that is given;
/// else the items that the variable lists with commas between them; else those of the file, one text
/// for each; else none.
pub proof fn law_blocks(file: FileConfig, env: EnvConfig, args: Args, items: Seq<Seq<char>>, i: int)
    requires
        forall|i: int|
            0 <= i < items.len() ==> (#[trigger] items[i]).len() > 0 && bare(items[i])
                && !items[i].contains(','),
    ensures
        ({
            let c = combined(file, env, args);
            &&& args.ipv6_block@.len() > 0 ==> {
                &&& c.ipv6_blocks.len() == args.ipv6_block@.len()
                &&& 0 <= i < args.ipv6_block@.len() ==> c.ipv6_blocks[i] == args.ipv6_block@[i]@
            }
            &&& args.ipv6_block@.len() == 0 && items.len() > 0 && is_text(
                env.ipv6_blocks,
                comma_list(items),
            ) ==> c.ipv6_blocks == items
            &&& args.ipv6_block@.len() == 0 && (env.ipv6_blocks is None || items.len() == 0 && is_text(
                env.ipv6_blocks,
                comma_list(items),
            )) ==> match file.ipv6_blocks {
                Some(v) => {
                    &&& c.ipv6_blocks.len() == v@.len()
                    &&& 0 <= i < v@.len() ==> c.ipv6_blocks[i] == v@[i]@
                },
                None => c.ipv6_blocks.len() == 0,
            }
        }),
{
    law_lists_are_read(items);
}

/// Settings are refused exactly if random sources are asked for and no block is given, or one of
/// user name and password is given and the other is not; where both hold, the first is told.
pub proof fn law_settings_are_refused(s: Settings)
    ensures
        objection(s) == Some(ConfigError::BlocksMissing) <==> s.random_egress_ipv6
            && s.ipv6_blocks.len() == 0,
        objection(s) == Some(ConfigError::CredentialsIncomplete) <==> !(s.random_egress_ipv6
            && s.ipv6_blocks.len() == 0) && (s.username is Some && s.password is None
            || s.username is None && s.password is Some),
{
}

/// What follows from single settings: IPv4 targets are refused where sources are random and IPv6 is
/// forced; being idle is limited by any number of seconds but 0; clients have to give the user name
/// and the password, in UTF-8, where both are set.
pub proof fn law_what_settings_mean(s: Settings)
    ensures
        s.refuses_ipv4() <==> s.random_egress_ipv6 && s.force_ipv6,
        s.idle_timeout_secs == 0 ==> s.idle_limit() is None,
        s.idle_timeout_secs > 0 ==> s.idle_limit() == Some(s.idle_timeout_secs),
        s.username is None || s.password is None ==> s.credentials() is None,
        s.username matches Some(u) ==> (s.password matches Some(p) ==> s.credentials() == Some(
            (vstd::utf8::encode_utf8(u), vstd::utf8::encode_utf8(p)),
        )),
{
}

/// The settings stand for what the fields hold.
pub proof fn law_settings_are_the_fields(c: Config, i: int)
    ensures
        c@.bind_addr == c.bind_addr@,
        c@.username is Some <==> c.username is Some,
        c.username matches Some(u) ==> c@.username == Some(u@),
        c@.password is Some <==> c.password is Some,
        c.password matches Some(p) ==> c@.password == Some(p@),
        c@.random_egress_ipv6 == c.random_egress_ipv6,
        c@.ipv6_blocks.len() == c.ipv6_blocks@.len(),
        0 <= i < c.ipv6_blocks@.len() ==> c@.ipv6_blocks[i] == c.ipv6_blocks@[i]@,
        c@.force_ipv6 == c.force_ipv6,
        c@.buffer_size == c.buffer_size,
        c@.max_connections == c.max_connections,
        c@.handshake_timeout_secs == c.handshake_timeout_secs,
        c@.idle_timeout_secs == c.idle_timeout_secs,
        c@.log_level == c.log_level@,
{
}

/// The settings where nothing is set.
pub proof fn law_defaults()
    ensures
        ({
            let d = default_settings();
            &&& d.username is None && d.password is None
            &&& !d.random_egress_ipv6 && !d.force_ipv6
            &&& d.ipv6_blocks.len() == 0
            &&& d.buffer_size == 4096 && d.max_connections == 0
            &&& d.handshake_timeout_secs == 10 && d.idle_timeout_secs == 0
            &&& objection(d) is None
        }),
{
}

} // verus!
