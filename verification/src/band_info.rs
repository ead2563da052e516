//! The channels of a band, and what they are called.

use crate::text::{decimal, decimal_text, parsed, parsing_undoes_writing, starts_with};
use vstd::prelude::*;
use vstd::string::*;

verus! {

/// How the channels of a band are told apart.
#[derive(Clone, Copy, Debug, PartialEq, Eq, Structural)]
pub enum NamingConvention {
    /// By their numbers, from one on.
    Number,
    /// By their frequencies, written with the given precision.
    Frequency(i32),
}

/// What channel `index` of a band is called, where its frequency is written `frequency`.
pub open spec fn channel_name(
    group: Seq<char>,
    naming: NamingConvention,
    index: nat,
    frequency: Seq<char>,
) -> Seq<char> {
    match naming {
        NamingConvention::Number => group + seq![' '] + decimal(index + 1),
        NamingConvention::Frequency(_) => group + seq![' '] + frequency,
    }
}

/// Walks over the channels of a band.
pub struct ChannelInfoIter {
    current_index: usize,
    num_channels: usize,
}

impl ChannelInfoIter {
    /// The channel that comes next.
    pub closed spec fn current(&self) -> nat {
        self.current_index as nat
    }

    /// How many channels there are.
    pub closed spec fn count(&self) -> nat {
        self.num_channels as nat
    }

    /// From the first channel on.
    pub fn new(num_channels: usize) -> (iter: Self)
        ensures
            iter.current() == 0,
            iter.count() == num_channels,
    {
        ChannelInfoIter { current_index: 0, num_channels }
    }

    /// The next channel, if there is one.
    pub fn next(&mut self) -> (index: Option<usize>)
        ensures
            final(self).count() == old(self).count(),
            old(self).current() < old(self).count() ==> {
                &&& index == Some(old(self).current() as usize)
                &&& final(self).current() == old(self).current() + 1
            },
            old(self).current() >= old(self).count() ==> {
                &&& index is None
                &&& final(self).current() == old(self).current()
            },
    {
        if self.current_index >= self.num_channels {
            return None;
        }
        let index: usize = self.current_index;
        self.current_index = self.current_index + 1;
        Some(index)
    }
}

/// What a channel is called.
pub fn name_channel(
    group: &str,
    naming: NamingConvention,
    index: usize,
    frequency: &str,
) -> (name: String)
    requires
        index < usize::MAX,
    ensures
        name@ == channel_name(group@, naming, index as nat, frequency@),
{
    let mut name = group.to_owned();
    proof {
        reveal_strlit(" ");
        assert(" "@ =~= seq![' ']);
    }
    name.append(" ");
    match naming {
        NamingConvention::Number => {
            let number = decimal_text(index as u64 + 1);
            name.append(number.as_str());
        },
        NamingConvention::Frequency(_) => {
            name.append(frequency);
        },
    }
    name
}

/// No two channels that are numbered are called the same.
pub proof fn numbered_channels_differ(group: Seq<char>, a: nat, b: nat, frequency: Seq<char>)
    requires
        channel_name(group, NamingConvention::Number, a, frequency) == channel_name(
            group,
            NamingConvention::Number,
            b,
            frequency,
        ),
    ensures
        a == b,
{
    let front = group + seq![' '];
    assert((front + decimal(a + 1)).skip(front.len() as int) =~= decimal(a + 1));
    assert((front + decimal(b + 1)).skip(front.len() as int) =~= decimal(b + 1));
    let max = a + b + 1;
    crate::text::parsing_undoes_writing(a + 1, max);
    crate::text::parsing_undoes_writing(b + 1, max);
}

/// What a channel is called begins with what its group is called and a space. A number follows
/// that is one for the first channel and grows by one, or the frequency.
pub proof fn channels_are_named_after_their_group(
    group: Seq<char>,
    index: nat,
    frequency: Seq<char>,
    precision: i32,
)
    requires
        index < usize::MAX,
    ensures
        ({
            let numbered = channel_name(group, NamingConvention::Number, index, frequency);
            let tuned = channel_name(
                group,
                NamingConvention::Frequency(precision),
                index,
                frequency,
            );
            &&& starts_with(numbered, group) && numbered[group.len() as int] == ' '
            &&& parsed(numbered.skip(group.len() as int + 1), usize::MAX as nat) == Some(
                (index + 1) as nat,
            )
            &&& starts_with(tuned, group) && tuned[group.len() as int] == ' '
            &&& tuned.skip(group.len() as int + 1) == frequency
        }),
{
    let numbered = channel_name(group, NamingConvention::Number, index, frequency);
    let tuned = channel_name(group, NamingConvention::Frequency(precision), index, frequency);
    assert(numbered.take(group.len() as int) =~= group);
    assert(tuned.take(group.len() as int) =~= group);
    assert(numbered.skip(group.len() as int + 1) =~= decimal(index + 1));
    assert(tuned.skip(group.len() as int + 1) =~= frequency);
    parsing_undoes_writing(index + 1, usize::MAX as nat);
}

} // verus!
