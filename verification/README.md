# babiniku

Voice-conversion models on top of [candle](https://github.com/huggingface/candle), with
contracts that Verus proves.

- `bigvgan`: BigVGAN v2 vocoder, mel spectrogram to waveform.
- `vocos`: Vocos vocoder with its inverse short-time transform.
- `campplus`, `fbank`: CAM++ speaker encoder and its filterbanks.
- `regulator`, `single`: length regulator, and the single-precision index arithmetic it needs.
- `mel`, `signal`: mel spectrograms, and how samples are framed.
- `checkpoint`, `fetch`: what is taken of published checkpoints, weight-norm folding, and the
  decisions of the `babiniku-fetch` program.
- `tensor`, `layers`, `graph`: the operations of candle, each with what is believed of it.
- `exact`: what a computation gives in exact arithmetic.
- `batch`, `agreement`: that operations treat the items of a batch one by one, and make the same of the
  same values.
- `values`, `utterances`, `waveforms`, `stretching`: what the models promise of the numbers that they
  compute, up to rounding.
- `text`, `error`: text and errors.

A model's contract says which computation its output is: `graph` describes it by operations,
settings and named parameters. Shapes are exact. In main memory the contracts also say when nothing
can fail: a model loads if and only if its parameters are there, whatever their precision, and runs on
every single-precision input of the right shape whose sizes it can count. BigVGAN also needs as many
frames as its stages pad with: one is too few for the published settings. Tensors that candle cannot
compute with, because they have too many axes or begin beyond the end of their storage, are left out;
functions are there to test for them. What the numbers are after rounding is candle's business and the
device's.

Signal processing is generic over the type of a sample: the arithmetic comes in as functions, and
the contracts say which samples it is applied to, in which order.

`app/` holds the program, file access and everything in floating point. `tests/` runs the models
against straightforward computations with candle; tests that need published checkpoints look for
them under `ckpt/` and do nothing where there are none.
