//! Channels: the declared type, reducer and default of a state field.
use vstd::prelude::*;
use crate::json::{JsonValue, JsonModel};
use crate::state::reducer::{Reducer, opt_model};

verus! {

/// The kind of value a channel holds.
#[derive(Debug, Clone, PartialEq)]
pub enum ChannelType {
    /// A string.
    String,
    /// A number.
    Number,
    /// A boolean.
    Boolean,
    /// An array.
    Array,
    /// An object.
    Object,
    /// Anything.
    Any,
    /// A named custom type; any value is accepted.
    Custom(String),
}

/// Whether a value of model `v` fits channel type `t`.
pub open spec fn type_fits(t: ChannelType, v: JsonModel) -> bool {
    match t {
        ChannelType::String => v is Str,
        ChannelType::Number => v is Number,
        ChannelType::Boolean => v is Bool,
        ChannelType::Array => v is Array,
        ChannelType::Object => v is Object,
        ChannelType::Any => true,
        ChannelType::Custom(_) => true,
    }
}

/// A state channel: its type, whether it is required, how updates merge,
/// and its default value.
pub struct Channel {
    pub channel_type: ChannelType,
    pub required: bool,
    pub reducer: Option<Box<dyn Reducer>>,
    pub default: Option<JsonValue>,
    pub metadata: Option<JsonValue>,
}

impl Channel {
    /// An optional channel of the given type, with no reducer, default or metadata.
    pub fn new(channel_type: ChannelType) -> (c: Channel)
        ensures
            c.channel_type == channel_type,
            !c.required,
            c.reducer is None,
            c.default is None,
            c.metadata is None,
    {
        Channel { channel_type, required: false, reducer: None, default: None, metadata: None }
    }

    /// A required channel of the given type.
    pub fn required(channel_type: ChannelType) -> (c: Channel)
        ensures
            c.channel_type == channel_type,
            c.required,
            c.reducer is None,
            c.default is None,
            c.metadata is None,
    {
        Channel { channel_type, required: true, reducer: None, default: None, metadata: None }
    }

    /// This channel with the given reducer.
    pub fn with_reducer(self, reducer: Box<dyn Reducer>) -> (c: Channel)
        ensures
            c.channel_type == self.channel_type,
            c.required == self.required,
            c.reducer is Some,
            c.default == self.default,
            c.metadata == self.metadata,
    {
        let mut c = self;
        c.reducer = Some(reducer);
        c
    }

    /// This channel with the given default value.
    pub fn with_default(self, default: JsonValue) -> (c: Channel)
        ensures
            c.channel_type == self.channel_type,
            c.required == self.required,
            c.reducer == self.reducer,
            c.default == Some(default),
            c.metadata == self.metadata,
    {
        let mut c = self;
        c.default = Some(default);
        c
    }

    /// This channel with the given metadata.
    pub fn with_metadata(self, metadata: JsonValue) -> (c: Channel)
        ensures
            c.channel_type == self.channel_type,
            c.required == self.required,
            c.reducer == self.reducer,
            c.default == self.default,
            c.metadata == Some(metadata),
    {
        let mut c = self;
        c.metadata = Some(metadata);
        c
    }

    /// Whether `value` fits the channel's type.
    pub fn validate_type(&self, value: &JsonValue) -> (b: bool)
        ensures
            b == type_fits(self.channel_type, value@),
    {
        match &self.channel_type {
            ChannelType::String => matches!(value, JsonValue::String(_)),
            ChannelType::Number => matches!(value, JsonValue::Number(_)),
            ChannelType::Boolean => matches!(value, JsonValue::Bool(_)),
            ChannelType::Array => matches!(value, JsonValue::Array(_)),
            ChannelType::Object => matches!(value, JsonValue::Object(_)),
            ChannelType::Any => true,
            ChannelType::Custom(_) => true,
        }
    }

    /// Merges `new` into `existing` with the channel's reducer; without one
    /// the new value wins.
    pub fn reduce(&self, existing: Option<&JsonValue>, new: JsonValue) -> (r: JsonValue)
        requires
            self.reducer matches Some(red) ==> red.accepts(opt_model(existing), new@),
        ensures
            self.reducer is None ==> r@ == new@,
            self.reducer matches Some(red) ==> r@ == red.reduction(opt_model(existing), new@),
    {
        match &self.reducer {
            Some(red) => red.reduce(existing, new),
            None => new,
        }
    }
}

/// Builds a channel step by step.
pub struct ChannelBuilder {
    channel: Channel,
}

impl ChannelBuilder {
    /// The channel being built.
    pub closed spec fn channel(&self) -> Channel {
        self.channel
    }

    /// Starts an optional channel of the given type.
    pub fn new(channel_type: ChannelType) -> (b: ChannelBuilder)
        ensures
            b.channel().channel_type == channel_type,
            !b.channel().required,
            b.channel().reducer is None,
            b.channel().default is None,
            b.channel().metadata is None,
    {
        ChannelBuilder { channel: Channel::new(channel_type) }
    }

    /// Makes the channel required.
    pub fn required(self) -> (b: ChannelBuilder)
        ensures
            b.channel() == (Channel { required: true, ..self.channel() }),
    {
        let mut b = self;
        b.channel.required = true;
        b
    }

    /// Sets the reducer.
    pub fn reducer(self, reducer: Box<dyn Reducer>) -> (b: ChannelBuilder)
        ensures
            b.channel() == (Channel { reducer: Some(reducer), ..self.channel() }),
    {
        let mut b = self;
        b.channel.reducer = Some(reducer);
        b
    }

    /// Sets the default value.
    pub fn default(self, default: JsonValue) -> (b: ChannelBuilder)
        ensures
            b.channel() == (Channel { default: Some(default), ..self.channel() }),
    {
        let mut b = self;
        b.channel.default = Some(default);
        b
    }

    /// Sets the metadata.
    pub fn metadata(self, metadata: JsonValue) -> (b: ChannelBuilder)
        ensures
            b.channel() == (Channel { metadata: Some(metadata), ..self.channel() }),
    {
        let mut b = self;
        b.channel.metadata = Some(metadata);
        b
    }

    /// The channel.
    pub fn build(self) -> (c: Channel)
        ensures
            c == self.channel(),
    {
        self.channel
    }
}

} // verus!
