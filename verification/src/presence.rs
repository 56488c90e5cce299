//! Laws on checkpoints: which parameters, of which shapes, make a model complete.

use crate::bigvgan;
use crate::bigvgan::{amp_there, block_scope, generator_there, stage_there, BigVganConfig};
use crate::campplus;
use crate::campplus::{cam_there, encoder_there, lemma_block_entry};
use crate::layers::{norm_there, Scope};
use crate::regulator;
use crate::regulator::{entry, regulator_there};
use crate::text::decimal;
use crate::vocos;
use crate::vocos::{network_there, VocosConfig};
use vstd::prelude::*;

verus! {

/// Whether a convolution is there: a kernel and a bias.
pub open spec fn has_conv(s: Scope, level: Seq<char>, weight: Seq<usize>, bias: usize) -> bool {
    &&& s.at(level).holds("weight"@, weight)
    &&& s.at(level).holds("bias"@, seq![bias])
}

/// Whether an alias-free activation is there: an `alpha` and a `beta` per channel and two filters of 12.
pub open spec fn has_activation(s: Scope, level: Seq<char>, channels: usize) -> bool {
    &&& s.at(level).at("act"@).holds("alpha"@, seq![channels])
    &&& s.at(level).at("act"@).holds("beta"@, seq![channels])
    &&& s.at(level).holds("upsample.filter"@, seq![1usize, 1usize, 12usize])
    &&& s.at(level).holds("downsample.lowpass.filter"@, seq![1usize, 1usize, 12usize])
}

/// Whether residual pair `k` of an AMP block is there: two convolutions and two activations.
pub open spec fn has_pair(s: Scope, channels: usize, kernel: usize, k: nat) -> bool {
    &&& has_conv(s, "convs1."@ + decimal(k), seq![channels, channels, kernel], channels)
    &&& has_conv(s, "convs2."@ + decimal(k), seq![channels, channels, kernel], channels)
    &&& has_activation(s, "activations."@ + decimal(2 * k), channels)
    &&& has_activation(s, "activations."@ + decimal(2 * k + 1), channels)
}

/// An AMP block is complete where all its pairs are.
proof fn lemma_amp_is_its_pairs(s: Scope, channels: usize, kernel: usize, n: nat)
    ensures
        amp_there(s, channels, kernel, n) <==> forall|k: nat| k < n ==> #[trigger] has_pair(s, channels, kernel, k),
{
    if amp_there(s, channels, kernel, n) {
        assert forall|k: nat| k < n implies #[trigger] has_pair(s, channels, kernel, k) by {
            let (a, b, c) = (decimal(k), decimal(2 * k), decimal(2 * k + 1));
            assert(bigvgan::activation_there(s.at("activations."@ + b), channels));
            assert(bigvgan::activation_there(s.at("activations."@ + c), channels));
        }
    }
    if forall|k: nat| k < n ==> #[trigger] has_pair(s, channels, kernel, k) {
        assert forall|k: nat| k < n implies crate::layers::conv_there(
            s.at("convs1."@ + #[trigger] decimal(k)),
            true,
            channels,
            channels,
            kernel,
        ) by {
            assert(has_pair(s, channels, kernel, k));
        }
        assert forall|k: nat| k < n implies crate::layers::conv_there(
            s.at("convs2."@ + #[trigger] decimal(k)),
            true,
            channels,
            channels,
            kernel,
        ) by {
            assert(has_pair(s, channels, kernel, k));
        }
        assert forall|k: nat| k < 2 * n implies bigvgan::activation_there(
            s.at("activations."@ + #[trigger] decimal(k)),
            channels,
        ) by {
            assert(has_pair(s, channels, kernel, k / 2));
            assert(k == 2 * (k / 2) || k == 2 * (k / 2) + 1);
        }
    }
}

/// Whether stage `i` of the generator is there: its transposed convolution and all pairs of all its
/// blocks.
pub open spec fn has_stage(cfg: BigVganConfig, s: Scope, i: nat) -> bool {
    let n = cfg.resblock_kernel_sizes@.len();
    &&& has_conv(
        s,
        "ups."@ + decimal(i) + ".0"@,
        seq![cfg.channels(i), cfg.channels(i + 1), cfg.upsample_kernel_sizes@[i as int]],
        cfg.channels(i + 1),
    )
    &&& forall|j: nat, k: nat|
        j < n && k < cfg.resblock_dilation_sizes@[j as int]@.len() ==> #[trigger] has_pair(
            s.at("resblocks."@ + decimal(i * n + j)),
            cfg.channels(i + 1),
            cfg.resblock_kernel_sizes@[j as int],
            k,
        )
}

/// A stage is complete where its transposed convolution and its pairs are.
proof fn lemma_stage_is_its_pairs(cfg: BigVganConfig, s: Scope, i: nat)
    requires
        cfg.resblock_kernel_sizes@.len() <= cfg.resblock_dilation_sizes@.len(),
    ensures
        stage_there(cfg, s, i, cfg.blocks()) <==> has_stage(cfg, s, i),
{
    let n = cfg.resblock_kernel_sizes@.len();
    let c = cfg.channels(i + 1);
    assert forall|j: nat| j < n implies (#[trigger] bigvgan::block_there(cfg, s, i, j) <==> forall|k: nat|
        k < cfg.resblock_dilation_sizes@[j as int]@.len() ==> #[trigger] has_pair(
            block_scope(cfg, s, i, j),
            c,
            cfg.resblock_kernel_sizes@[j as int],
            k,
        )) by {
        lemma_amp_is_its_pairs(
            block_scope(cfg, s, i, j),
            c,
            cfg.resblock_kernel_sizes@[j as int],
            cfg.resblock_dilation_sizes@[j as int]@.len(),
        );
    }
    if has_stage(cfg, s, i) {
        assert forall|j: nat| j < n implies #[trigger] bigvgan::block_there(cfg, s, i, j) by {
            assert forall|k: nat| k < cfg.resblock_dilation_sizes@[j as int]@.len() implies #[trigger] has_pair(
                block_scope(cfg, s, i, j),
                c,
                cfg.resblock_kernel_sizes@[j as int],
                k,
            ) by {
                assert(block_scope(cfg, s, i, j) == s.at("resblocks."@ + decimal(i * n + j)));
            }
        }
    }
    if stage_there(cfg, s, i, cfg.blocks()) {
        assert forall|j: nat, k: nat|
            j < n && k < cfg.resblock_dilation_sizes@[j as int]@.len() implies #[trigger] has_pair(
            s.at("resblocks."@ + decimal(i * n + j)),
            c,
            cfg.resblock_kernel_sizes@[j as int],
            k,
        ) by {
            assert(bigvgan::block_there(cfg, s, i, j));
            assert(block_scope(cfg, s, i, j) == s.at("resblocks."@ + decimal(i * n + j)));
        }
    }
}

/// A checkpoint holds the generator where it holds the two outer convolutions, the last activation, and
/// every stage with all pairs of all its blocks; nothing else is asked for.
pub proof fn law_generator_is_complete_with_all_its_pairs(cfg: BigVganConfig, s: Scope)
    requires
        cfg.upsample_rates@.len() <= cfg.upsample_kernel_sizes@.len(),
        cfg.resblock_kernel_sizes@.len() <= cfg.resblock_dilation_sizes@.len(),
    ensures
        generator_there(cfg, s) <==> {
            let n = cfg.upsample_rates@.len();
            &&& has_conv(
                s,
                "conv_pre"@,
                seq![cfg.upsample_initial_channel, cfg.num_mels, 7usize],
                cfg.upsample_initial_channel,
            )
            &&& forall|i: nat| i < n ==> #[trigger] has_stage(cfg, s, i)
            &&& has_activation(s, "activation_post"@, cfg.channels(n))
            &&& s.at("conv_post"@).holds("weight"@, seq![1usize, cfg.channels(n), 7usize])
        },
{
    assert forall|i: nat| #[trigger] stage_there(cfg, s, i, cfg.blocks()) <==> has_stage(cfg, s, i) by {
        lemma_stage_is_its_pairs(cfg, s, i);
    }
    assert forall|i: nat| #[trigger] has_stage(cfg, s, i) <==> stage_there(cfg, s, i, cfg.blocks()) by {
        lemma_stage_is_its_pairs(cfg, s, i);
    }
}

/// Whether a ConvNeXt block is there.
pub open spec fn has_block(s: Scope, dim: usize, inner: usize) -> bool {
    &&& has_conv(s, "dwconv"@, seq![dim, 1usize, 7usize], dim)
    &&& norm_there(s.at("norm"@), dim)
    &&& has_conv(s, "pwconv1"@, seq![inner, dim], inner)
    &&& has_conv(s, "pwconv2"@, seq![dim, inner], dim)
    &&& s.holds("gamma"@, seq![dim])
}

/// A checkpoint holds the Vocos network where it holds the embedding, as many blocks as the settings say,
/// the head, and the two normalisations; nothing else is asked for.
pub proof fn law_network_is_complete_with_all_its_blocks(cfg: VocosConfig, s: Scope)
    ensures
        network_there(cfg, s) <==> {
            let base = s.at("backbone"@);
            let out = (cfg.n_fft + 2) as usize;
            &&& has_conv(base, "embed"@, seq![cfg.dim, cfg.input_channels, 7usize], cfg.dim)
            &&& norm_there(base.at("norm"@), cfg.dim)
            &&& forall|i: nat|
                i < cfg.num_layers ==> has_block(
                    base.at("convnext."@ + #[trigger] decimal(i)),
                    cfg.dim,
                    cfg.intermediate_dim,
                )
            &&& norm_there(base.at("final_layer_norm"@), cfg.dim)
            &&& has_conv(s, "head.out"@, seq![out, cfg.dim], out)
        },
{
    let base = s.at("backbone"@);
    if network_there(cfg, s) {
        assert forall|i: nat| i < cfg.num_layers implies has_block(
            base.at("convnext."@ + #[trigger] decimal(i)),
            cfg.dim,
            cfg.intermediate_dim,
        ) by {
            let scope = vocos::block_scope(s, i);
            assert(vocos::convnext_there(scope, cfg.dim, cfg.intermediate_dim));
        }
    }
    if forall|i: nat|
        i < cfg.num_layers ==> has_block(
            base.at("convnext."@ + #[trigger] decimal(i)),
            cfg.dim,
            cfg.intermediate_dim,
        ) {
        assert forall|i: nat| i < cfg.num_layers implies vocos::convnext_there(
            #[trigger] vocos::block_scope(s, i),
            cfg.dim,
            cfg.intermediate_dim,
        ) by {
            let number = decimal(i);
            assert(has_block(base.at("convnext."@ + number), cfg.dim, cfg.intermediate_dim));
        }
    }
}

/// Whether block `i` of the regulator is there: a convolution and a normalisation.
pub open spec fn has_entry(m: Scope, i: nat) -> bool {
    &&& has_conv(m, "model."@ + decimal(3 * i), seq![512usize, 512usize, 3usize], 512)
    &&& has_conv(m, "model."@ + decimal(3 * i + 1), seq![512usize], 512)
}

/// A checkpoint holds the regulator where it holds the projection, four blocks of a convolution and a
/// normalisation, and the last convolution; nothing else is asked for.
pub proof fn law_regulator_is_complete_with_four_blocks(s: Scope)
    ensures
        regulator_there(s) <==> {
            let m = s.at("module"@);
            &&& has_conv(m, "content_in_proj"@, seq![512usize, 768usize], 512)
            &&& has_entry(m, 0)
            &&& has_entry(m, 1)
            &&& has_entry(m, 2)
            &&& has_entry(m, 3)
            &&& has_conv(m, "model.12"@, seq![512usize, 512usize, 1usize], 512)
        },
{
    let m = s.at("module"@);
    assert forall|i: nat| #[trigger] regulator::block_there(m, i) <==> has_entry(m, i) by {
        assert(entry(m, 3 * i) == m.at("model."@ + decimal(3 * i)));
    }
    if regulator_there(s) {
        assert(regulator::block_there(m, 0) && regulator::block_there(m, 1));
        assert(regulator::block_there(m, 2) && regulator::block_there(m, 3));
    }
    if has_entry(m, 0) && has_entry(m, 1) && has_entry(m, 2) && has_entry(m, 3) {
        assert forall|i: nat| i < 4 implies #[trigger] regulator::block_there(m, i) by {
            assert(i == 0 || i == 1 || i == 2 || i == 3);
        }
    }
}

/// Whether a batch normalisation with a weight and a bias is there.
pub open spec fn has_norm(s: Scope, level: Seq<char>, channels: usize) -> bool {
    &&& s.at(level).holds("running_mean"@, seq![channels])
    &&& s.at(level).holds("running_var"@, seq![channels])
    &&& s.at(level).holds("weight"@, seq![channels])
    &&& s.at(level).holds("bias"@, seq![channels])
}

/// Whether a residual block of 32 planes is there, with a convolution of its input or without.
pub open spec fn has_residual(s: Scope, shortcut: bool) -> bool {
    &&& s.at("conv1"@).holds("weight"@, seq![32usize, 32usize, 3usize, 3usize])
    &&& has_norm(s, "bn1"@, 32)
    &&& s.at("conv2"@).holds("weight"@, seq![32usize, 32usize, 3usize, 3usize])
    &&& has_norm(s, "bn2"@, 32)
    &&& shortcut ==> s.at("shortcut.0"@).holds("weight"@, seq![32usize, 32usize, 1usize, 1usize])
    &&& shortcut ==> has_norm(s, "shortcut.1"@, 32)
}

/// Whether a context-aware layer of `channels` channels is there.
pub open spec fn has_layer(s: Scope, channels: usize) -> bool {
    &&& has_norm(s, "nonlinear1.batchnorm"@, channels)
    &&& s.at("linear1"@).holds("weight"@, seq![128usize, channels, 1usize])
    &&& has_norm(s, "nonlinear2.batchnorm"@, 128)
    &&& s.at("cam_layer"@).at("linear_local"@).holds("weight"@, seq![32usize, 128usize, 3usize])
    &&& has_conv(s.at("cam_layer"@), "linear1"@, seq![64usize, 128usize, 1usize], 64)
    &&& has_conv(s.at("cam_layer"@), "linear2"@, seq![32usize, 64usize, 1usize], 32)
}

/// Whether dense block `i`, with as many layers and channels, and its transit layer are there.
pub open spec fn has_dense(xv: Scope, i: nat, layers: nat, channels: nat, half: usize) -> bool {
    let block = xv.at("block"@ + decimal(i + 1));
    let transit = xv.at("transit"@ + decimal(i + 1));
    let all = (channels + 32 * layers) as usize;
    &&& forall|l: nat|
        l < layers ==> has_layer(block.at("tdnnd"@ + #[trigger] decimal(l + 1)), (channels + 32 * l) as usize)
    &&& has_norm(transit, "nonlinear.batchnorm"@, all)
    &&& transit.at("linear"@).holds("weight"@, seq![half, all, 1usize])
}

/// A dense block is complete where its layers and its transit layer are.
proof fn lemma_dense_is_its_layers(xv: Scope, i: nat)
    requires
        i < 3,
    ensures
        campplus::block_there(xv, i) <==> has_dense(
            xv,
            i,
            campplus::block_layers(i) as nat,
            campplus::block_entry(i),
            campplus::block_entry(i + 1) as usize,
        ),
{
    lemma_block_entry();
    let (n, entry) = (campplus::block_layers(i) as nat, campplus::block_entry(i));
    let block = xv.at("block"@ + decimal(i + 1));
    if campplus::block_there(xv, i) {
        assert forall|l: nat| l < n implies has_layer(
            block.at("tdnnd"@ + #[trigger] decimal(l + 1)),
            (entry + 32 * l) as usize,
        ) by {
            let scope = campplus::layer_scope(xv, i, l);
            assert(cam_there(scope, (entry + 32 * l) as usize, 32, 128, 3));
        }
    }
    if has_dense(xv, i, n, entry, campplus::block_entry(i + 1) as usize) {
        assert forall|l: nat| l < n implies cam_there(
            #[trigger] campplus::layer_scope(xv, i, l),
            (entry + 32 * l) as usize,
            32,
            128,
            3,
        ) by {
            let number = decimal(l + 1);
            assert(has_layer(block.at("tdnnd"@ + number), (entry + 32 * l) as usize));
        }
    }
}

/// A checkpoint holds the speaker encoder where it holds the front-end with its four blocks, the stem, the
/// dense blocks of 12, 24 and 16 layers, and the last layers; nothing else is asked for.
pub proof fn law_encoder_is_complete_with_all_its_layers(s: Scope)
    ensures
        encoder_there(s) <==> {
            let (head, xv) = (s.at("head"@), s.at("xvector"@));
            &&& head.at("conv1"@).holds("weight"@, seq![32usize, 1usize, 3usize, 3usize])
            &&& has_norm(head, "bn1"@, 32)
            &&& has_residual(head.at("layer1.0"@), true)
            &&& has_residual(head.at("layer1.1"@), false)
            &&& has_residual(head.at("layer2.0"@), true)
            &&& has_residual(head.at("layer2.1"@), false)
            &&& head.at("conv2"@).holds("weight"@, seq![32usize, 32usize, 3usize, 3usize])
            &&& has_norm(head, "bn2"@, 32)
            &&& xv.at("tdnn.linear"@).holds("weight"@, seq![128usize, 320usize, 5usize])
            &&& has_norm(xv, "tdnn.nonlinear.batchnorm"@, 128)
            &&& has_dense(xv, 0, 12, 128, 256)
            &&& has_dense(xv, 1, 24, 256, 512)
            &&& has_dense(xv, 2, 16, 512, 512)
            &&& has_norm(xv, "out_nonlinear.batchnorm"@, 512)
            &&& xv.at("dense"@).holds("linear.weight"@, seq![192usize, 1024usize, 1usize])
            &&& xv.at("dense"@).at("nonlinear.batchnorm"@).holds("running_mean"@, seq![192usize])
            &&& xv.at("dense"@).at("nonlinear.batchnorm"@).holds("running_var"@, seq![192usize])
        },
{
    lemma_block_entry();
    let xv = s.at("xvector"@);
    lemma_dense_is_its_layers(xv, 0);
    lemma_dense_is_its_layers(xv, 1);
    lemma_dense_is_its_layers(xv, 2);
}

} // verus!
